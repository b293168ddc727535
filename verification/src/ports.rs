//! Choosing TCP ports for instances. Whether a port is free is a question
//! for the operating system; the caller answers it through `is_free`.

use vstd::prelude::*;

verus! {

/// `is_free` answered `answer` for `port` (one of its possible answers).
pub open spec fn answered<F: Fn(u16) -> bool>(is_free: F, port: u16, answer: bool) -> bool {
    call_ensures(is_free, (port,), answer)
}

/// End (exclusive) of the scan window that starts at `start` and spans `span`
/// ports (`start.saturating_add(span)`).
pub open spec fn scan_end(start: u16, span: u16) -> int {
    if start + span > u16::MAX {
        u16::MAX as int
    } else {
        start + span
    }
}

/// `r` is what a scan of `[start, scan_end(start, span))` may return: the
/// first port that `is_free` reported free, or `start` when it reported none.
pub open spec fn scan_result<F: Fn(u16) -> bool>(is_free: F, start: u16, span: u16, r: u16) -> bool {
    ||| {
        &&& start <= r < scan_end(start, span)
        &&& answered(is_free, r, true)
        &&& forall|q: u16| start <= q < r ==> answered(is_free, q, false)
    }
    ||| {
        &&& r == start
        &&& forall|q: u16| start <= q < scan_end(start, span) ==> answered(is_free, q, false)
    }
}

/// The first port in `[start, start + span)` (saturating) that `is_free`
/// reports free, or `start` when none is.
pub fn find_free_port<F: Fn(u16) -> bool>(start: u16, span: u16, is_free: &F) -> (r: u16)
    requires
        forall|p: u16| call_requires(*is_free, (p,)),
    ensures
        scan_result(*is_free, start, span, r),
{
    let end = start.saturating_add(span);
    let mut p = start;
    while p < end
        invariant
            start <= p <= end,
            end == scan_end(start, span),
            forall|q: u16| call_requires(*is_free, (q,)),
            forall|q: u16| start <= q < p ==> answered(*is_free, q, false),
        decreases end - p,
    {
        if is_free(p) {
            return p;
        }
        p += 1;
    }
    start
}

/// First port tried when no usable port was requested.
pub const DEFAULT_PORT: u16 = 3080;

/// How many ports each scan looks at when creating an instance.
pub const CREATE_SCAN_SPAN: u16 = 200;

fn contains_port(used: &Vec<u16>, p: u16) -> (r: bool)
    ensures
        r == used@.contains(p),
{
    let mut i: usize = 0;
    while i < used.len()
        invariant
            i <= used@.len(),
            forall|k: int| 0 <= k < i ==> used@[k] != p,
        decreases used@.len() - i,
    {
        if used[i] == p {
            assert(used@[i as int] == p);
            return true;
        }
        i += 1;
    }
    false
}

/// A requested port that is kept if possible: one of at least 1024.
pub open spec fn usable_request(requested: Option<u16>) -> bool {
    requested is Some && requested->0 >= 1024
}

/// Every port in `[from, to)` is used by another instance or was reported
/// busy by `is_free`.
pub open spec fn all_taken<F: Fn(u16) -> bool>(is_free: F, used: Seq<u16>, from: int, to: int) -> bool {
    forall|q: u16| from <= q < to ==> used.contains(q) || answered(is_free, q, false)
}

proof fn lemma_scan_skips_busy<F: Fn(u16) -> bool>(is_free: F, start: u16, span: u16, r: u16)
    requires
        scan_result(is_free, start, span, r),
    ensures
        start <= r,
        forall|q: u16| start <= q < r ==> answered(is_free, q, false),
{
}

/// Where the search for a default port ends when a scan starts at `start`:
/// the scan gives `p`; a `p` that no other instance uses is the port, and
/// otherwise the search goes on after `p`, or fails (`None`) when `p` is
/// 65535.
pub open spec fn default_search<F: Fn(u16) -> bool>(
    is_free: F,
    used: Seq<u16>,
    start: u16,
    result: Option<u16>,
) -> bool
    decreases u16::MAX - start,
{
    exists|p: u16|
        #![trigger scan_result(is_free, start, CREATE_SCAN_SPAN, p)]
        start <= p && scan_result(is_free, start, CREATE_SCAN_SPAN, p) && if !used.contains(p) {
            result == Some(p)
        } else if p == u16::MAX {
            result is None
        } else {
            default_search(is_free, used, (p + 1) as u16, result)
        }
}

/// The port of a new instance. A requested port of at least 1024 is kept
/// unless another instance uses it or `is_free` reports it busy, in which
/// case the 200 ports after it are scanned. Otherwise ports from 3080 are
/// scanned, and scanning resumes after every result that another instance
/// already uses. `None` when the search would have to go on past port 65535:
/// the requested port 65535 is taken, or the scan from 3080 ended at 65535
/// and another instance uses it.
pub fn choose_port<F: Fn(u16) -> bool>(requested: Option<u16>, used: &Vec<u16>, is_free: &F) -> (r: Option<u16>)
    requires
        forall|p: u16| call_requires(*is_free, (p,)),
    ensures
        r matches Some(port) ==> port >= 1024,
        usable_request(requested) ==> {
            let p = requested->0;
            &&& r is None ==> p == u16::MAX && (used@.contains(p) || answered(*is_free, p, false))
            &&& r matches Some(port) ==> {
                ||| (port == p && !used@.contains(p) && answered(*is_free, p, true))
                ||| (p < u16::MAX && (used@.contains(p) || answered(*is_free, p, false))
                    && scan_result(*is_free, (p + 1) as u16, CREATE_SCAN_SPAN, port))
            }
        },
        !usable_request(requested) ==> default_search(*is_free, used@, DEFAULT_PORT, r),
        !usable_request(requested) ==> {
            &&& r is None ==> used@.contains(u16::MAX) && all_taken(*is_free, used@, DEFAULT_PORT as int, u16::MAX as int)
            &&& r matches Some(port) ==> {
                &&& port >= DEFAULT_PORT
                &&& !used@.contains(port)
                &&& all_taken(*is_free, used@, DEFAULT_PORT as int, port as int)
                &&& exists|s: u16| DEFAULT_PORT <= s <= port && scan_result(*is_free, s, CREATE_SCAN_SPAN, port)
            }
        },
{
    match requested {
        Some(p) if p >= 1024 => {
            if contains_port(used, p) || !is_free(p) {
                if p == u16::MAX {
                    None
                } else {
                    Some(find_free_port(p + 1, CREATE_SCAN_SPAN, is_free))
                }
            } else {
                Some(p)
            }
        },
        _ => {
            let mut p = find_free_port(DEFAULT_PORT, CREATE_SCAN_SPAN, is_free);
            let ghost mut s: u16 = DEFAULT_PORT;
            while contains_port(used, p)
                invariant
                    forall|q: u16| call_requires(*is_free, (q,)),
                    !usable_request(requested),
                    DEFAULT_PORT <= s <= p,
                    scan_result(*is_free, s, CREATE_SCAN_SPAN, p),
                    all_taken(*is_free, used@, DEFAULT_PORT as int, s as int),
                forall|res: Option<u16>|
                    #[trigger] default_search(*is_free, used@, s, res) ==> default_search(
                        *is_free,
                        used@,
                        DEFAULT_PORT,
                        res,
                    ),
                decreases u16::MAX - p,
            {
                proof {
                    lemma_scan_skips_busy(*is_free, s, CREATE_SCAN_SPAN, p);
                }
                if p == u16::MAX {
                    assert(default_search(*is_free, used@, s, None));
                    return None;
                }
                proof {
                    let s0 = s;
                    s = (p + 1) as u16;
                    assert forall|res: Option<u16>| #[trigger]
                        default_search(*is_free, used@, s, res) implies default_search(
                        *is_free,
                        used@,
                        DEFAULT_PORT,
                        res,
                    ) by {
                        assert(default_search(*is_free, used@, s0, res));
                    }
                }
                p = find_free_port(p + 1, CREATE_SCAN_SPAN, is_free);
            }
            proof {
                lemma_scan_skips_busy(*is_free, s, CREATE_SCAN_SPAN, p);
                assert(default_search(*is_free, used@, s, Some(p)));
            }
            Some(p)
        },
    }
}

} // verus!
