//! Releases of dsh as the npm registry lists them: semantic versions (parsed
//! and ordered by the `semver` crate), publication times (parsed by
//! `chrono`) and the ordering of the download list.

use vstd::prelude::*;
use crate::text::{chars_of, owned, push_char};
use crate::versions::{channel_of, classify_channel, VersionInfo, VersionModel};

verus! {

broadcast use vstd::seq_lib::group_to_multiset_ensures;

#[verifier::external_type_specification]
#[verifier::external_body]
pub struct ExSemverVersion(semver::Version);

#[verifier::external_type_specification]
#[verifier::external_body]
pub struct ExSemverError(semver::Error);

/// Whether `semver::Version::parse` accepts a text.
pub uninterp spec fn semver_accepts(text: Seq<char>) -> bool;

/// How `semver` orders the versions parsed from two texts (`Ord::cmp`):
/// negative, zero or positive.
pub uninterp spec fn semver_order(a: Seq<char>, b: Seq<char>) -> int;

/// `semver::Version::parse`. Claims only that it succeeds exactly on the
/// texts that `semver_accepts`; which texts those are (SemVer 2.0 syntax,
/// numbers within `u64`) is left to the crate.
#[verifier::external_body]
fn parse_semver(text: &str) -> (r: Result<semver::Version, semver::Error>)
    ensures
        r is Ok <==> semver_accepts(text@),
{
    semver::Version::parse(text)
}

/// A version text together with the `semver::Version` parsed from it. The
/// only way to make one is [`SemVersion::parse`], so the parsed value always
/// belongs to the text.
pub struct SemVersion {
    text: String,
    version: semver::Version,
}

impl View for SemVersion {
    type V = Seq<char>;

    closed spec fn view(&self) -> Seq<char> {
        self.text@
    }
}

impl SemVersion {
    /// Parses a version text.
    pub fn parse(text: &str) -> (r: Option<SemVersion>)
        ensures
            r is Some <==> semver_accepts(text@),
            r matches Some(v) ==> v@ == text@,
    {
        match parse_semver(text) {
            Ok(version) => Some(SemVersion { text: owned(text), version }),
            Err(_) => None,
        }
    }
}

/// `Ord::cmp` of two `semver::Version`s, as -1, 0 or 1. Claims that the
/// result is `semver_order` of the two version texts and, as for any `Ord`,
/// that comparing the other way round gives the opposite sign.
#[verifier::external_body]
fn compare_semver(a: &SemVersion, b: &SemVersion) -> (r: i8)
    ensures
        r == semver_order(a@, b@),
        semver_order(b@, a@) == -r,
        -1 <= r <= 1,
{
    match a.version.cmp(&b.version) {
        std::cmp::Ordering::Less => -1,
        std::cmp::Ordering::Equal => 0,
        std::cmp::Ordering::Greater => 1,
    }
}

/// `Display` of a `semver::Version` (`to_string`). Claims that the text
/// printed is the text the version was parsed from: parsing refuses leading
/// zeros in the numeric parts and keeps the pre-release and build texts as
/// written, and `Display` prints major.minor.patch, then `-` and the
/// pre-release and `+` and the build metadata where present.
#[verifier::external_body]
fn display_semver(v: &SemVersion) -> (r: String)
    ensures
        r@ == v@,
{
    v.version.to_string()
}

/// A version to install: it must be a semantic version, and its canonical
/// text is what is written into the instance's `package.json`.
pub fn normalize_version(version: &str) -> (r: Result<String, String>)
    ensures
        semver_accepts(version@) ==> (r matches Ok(t) && t@ == version@),
        !semver_accepts(version@) ==> (r matches Err(e) && e@ == "非法版本号: "@ + version@),
{
    match SemVersion::parse(version) {
        Some(v) => Ok(display_semver(&v)),
        None => {
            let mut e = owned("非法版本号: ");
            let ghost head = e@;
            let v = chars_of(version);
            let mut i: usize = 0;
            while i < v.len()
                invariant
                    i <= v@.len(),
                    e@ == head + v@.subrange(0, i as int),
                decreases v@.len() - i,
            {
                push_char(&mut e, v[i]);
                assert(v@.subrange(0, i + 1) =~= v@.subrange(0, i as int).push(v@[i as int]));
                i += 1;
            }
            assert(v@.subrange(0, v@.len() as int) =~= v@);
            Err(e)
        },
    }
}

/// Lexicographic order of two texts by code point, as `String`'s `Ord`
/// orders them (UTF-8 byte order agrees with code point order): negative,
/// zero or positive.
pub open spec fn text_order(a: Seq<char>, b: Seq<char>) -> int
    decreases a.len(),
{
    if a.len() == 0 {
        if b.len() == 0 {
            0
        } else {
            -1
        }
    } else if b.len() == 0 {
        1
    } else if (a[0] as u32) < (b[0] as u32) {
        -1
    } else if (a[0] as u32) > (b[0] as u32) {
        1
    } else {
        text_order(a.drop_first(), b.drop_first())
    }
}

/// Comparing two texts the other way round gives the opposite sign.
pub proof fn lemma_text_order_antisymmetric(a: Seq<char>, b: Seq<char>)
    ensures
        text_order(b, a) == -text_order(a, b),
        -1 <= text_order(a, b) <= 1,
    decreases a.len(),
{
    if a.len() > 0 && b.len() > 0 && (a[0] as u32) == (b[0] as u32) {
        lemma_text_order_antisymmetric(a.drop_first(), b.drop_first());
    }
}

/// `text_order` of two texts, as -1, 0 or 1.
pub fn compare_text(a: &str, b: &str) -> (r: i8)
    ensures
        r == text_order(a@, b@),
{
    let x = chars_of(a);
    let y = chars_of(b);
    let mut k: usize = 0;
    assert(x@.skip(0) == x@);
    assert(y@.skip(0) == y@);
    while k < x.len() && k < y.len() && x[k] == y[k]
        invariant
            k <= x@.len(),
            k <= y@.len(),
            text_order(x@, y@) == text_order(x@.skip(k as int), y@.skip(k as int)),
        decreases x@.len() - k,
    {
        assert(x@.skip(k as int).drop_first() == x@.skip(k + 1));
        assert(y@.skip(k as int).drop_first() == y@.skip(k + 1));
        k += 1;
    }
    let ghost xs = x@.skip(k as int);
    let ghost ys = y@.skip(k as int);
    if k == x.len() {
        assert(xs.len() == 0);
        if k == y.len() {
            assert(ys.len() == 0);
            0
        } else {
            assert(ys.len() > 0);
            -1
        }
    } else if k == y.len() {
        assert(ys.len() == 0 && xs.len() > 0);
        1
    } else {
        assert(xs[0] == x@[k as int]);
        assert(ys[0] == y@[k as int]);
        assert(xs.len() > 0 && ys.len() > 0);
        let c = x[k] as u32;
        let d = y[k] as u32;
        assert(x@[k as int] != y@[k as int]);
        assert(c != d) by {
            vstd::utf8::char_u32_cast(x@[k as int], c);
            vstd::utf8::char_u32_cast(y@[k as int], d);
        }
        if c < d {
            -1
        } else {
            1
        }
    }
}

/// Order of the download list: newest first by semantic version when both
/// texts are semantic versions, otherwise reverse text order. Negative means
/// `a` comes before `b`.
pub open spec fn listing_order(a: Seq<char>, b: Seq<char>) -> int {
    if semver_accepts(a) && semver_accepts(b) {
        semver_order(b, a)
    } else {
        text_order(b, a)
    }
}

/// `text_order` is the lexicographic order by code point: where two texts
/// agree on their first `k` characters, the shorter comes first when one of
/// them ends there, and otherwise the character at `k` decides.
pub proof fn lemma_text_order_lexicographic(a: Seq<char>, b: Seq<char>, k: int)
    requires
        0 <= k <= a.len(),
        k <= b.len(),
        a.subrange(0, k) == b.subrange(0, k),
    ensures
        k == a.len() && k == b.len() ==> text_order(a, b) == 0,
        k == a.len() && k < b.len() ==> text_order(a, b) < 0,
        k < a.len() && k == b.len() ==> text_order(a, b) > 0,
        k < a.len() && k < b.len() && (a[k] as u32) < (b[k] as u32) ==> text_order(a, b) < 0,
        k < a.len() && k < b.len() && (a[k] as u32) > (b[k] as u32) ==> text_order(a, b) > 0,
    decreases k,
{
    if k > 0 {
        assert(a[0] == a.subrange(0, k)[0]);
        assert(b[0] == b.subrange(0, k)[0]);
        assert(a.drop_first().subrange(0, k - 1) =~= b.drop_first().subrange(0, k - 1)) by {
            assert forall|i: int| 0 <= i < k - 1 implies a.drop_first()[i] == b.drop_first()[i] by {
                assert(a.subrange(0, k)[i + 1] == b.subrange(0, k)[i + 1]);
                assert(a.subrange(0, k)[i + 1] == a[i + 1]);
                assert(b.subrange(0, k)[i + 1] == b[i + 1]);
            }
        }
        lemma_text_order_lexicographic(a.drop_first(), b.drop_first(), k - 1);
    }
}

/// Where both texts are semantic versions, the download list puts the newer
/// one, by `semver`'s own order, first: pre-releases are compared as
/// semantic versions too. Where either is not, the text that sorts later
/// comes first.
pub proof fn lemma_listing_order_rules(a: Seq<char>, b: Seq<char>)
    ensures
        semver_accepts(a) && semver_accepts(b) ==> listing_order(a, b) == semver_order(b, a),
        !(semver_accepts(a) && semver_accepts(b)) ==> listing_order(a, b) == text_order(b, a),
{
}

/// In a sorted download list, of two neighbouring semantic versions the
/// second is never newer than the first, and of two neighbours of which
/// one is not a semantic version the second never sorts after the first
/// as text.
pub proof fn lemma_sorted_list_newest_first(v: Seq<VersionModel>)
    requires
        is_listing_sorted(v),
    ensures
        forall|i: int|
            0 <= i < v.len() - 1 && semver_accepts(#[trigger] v[i].version) && semver_accepts(v[i + 1].version)
                ==> semver_order(v[i + 1].version, v[i].version) <= 0,
        forall|i: int|
            0 <= i < v.len() - 1 && !(semver_accepts(#[trigger] v[i].version) && semver_accepts(
                v[i + 1].version,
            )) ==> text_order(v[i + 1].version, v[i].version) <= 0,
{
    assert forall|i: int| 0 <= i < v.len() - 1 implies listing_order(#[trigger] v[i].version, v[i + 1].version)
        <= 0 by {}
}

/// An entry of the download list with its version text parsed once.
struct Keyed {
    info: VersionInfo,
    parsed: Option<SemVersion>,
}

spec fn keyed_ok(k: Keyed) -> bool {
    &&& (k.parsed is Some <==> semver_accepts(k.info.version@))
    &&& (k.parsed matches Some(v) ==> v@ == k.info.version@)
}

fn keyed(info: VersionInfo) -> (r: Keyed)
    ensures
        keyed_ok(r),
        r.info == info,
{
    let parsed = SemVersion::parse(info.version.as_str());
    Keyed { info, parsed }
}

fn order_keyed(a: &Keyed, b: &Keyed) -> (r: i8)
    requires
        keyed_ok(*a),
        keyed_ok(*b),
    ensures
        r == listing_order(a.info.version@, b.info.version@),
        listing_order(b.info.version@, a.info.version@) == -r,
{
    match (&a.parsed, &b.parsed) {
        (Some(x), Some(y)) => compare_semver(y, x),
        _ => {
            proof {
                lemma_text_order_antisymmetric(a.info.version@, b.info.version@);
            }
            compare_text(b.info.version.as_str(), a.info.version.as_str())
        },
    }
}

/// Models of a list of versions.
pub open spec fn version_models(v: Seq<VersionInfo>) -> Seq<VersionModel> {
    v.map_values(|i: VersionInfo| i@)
}

spec fn keyed_models(v: Seq<Keyed>) -> Seq<VersionModel> {
    v.map_values(|k: Keyed| k.info@)
}

/// Each entry of the list is ordered before or with the next one.
pub open spec fn is_listing_sorted(v: Seq<VersionModel>) -> bool {
    forall|i: int| 0 <= i < v.len() - 1 ==> listing_order(#[trigger] v[i].version, v[i + 1].version) <= 0
}

proof fn lemma_insert_multiset<A>(s: Seq<A>, p: int, x: A)
    requires
        0 <= p <= s.len(),
    ensures
        s.insert(p, x).to_multiset() =~= s.to_multiset().insert(x),
{
    let t = s.insert(p, x);
    assert(t.remove(p) =~= s);
    assert(t[p] == x);
    assert(t.remove(p).to_multiset() =~= t.to_multiset().remove(x));
    assert(t.to_multiset().count(x) > 0) by {
        assert(t.contains(x));
    }
}

/// Whether an entry carries version `version`.
pub open spec fn has_version(version: Seq<char>) -> spec_fn(VersionModel) -> bool {
    |m: VersionModel| m.version == version
}

/// The entries of a list that carry version `version`, in list order.
pub open spec fn entries_of(v: Seq<VersionModel>, version: Seq<char>) -> Seq<VersionModel> {
    v.filter(has_version(version))
}

proof fn lemma_entries_of_none(s: Seq<VersionModel>, version: Seq<char>)
    requires
        forall|k: int| 0 <= k < s.len() ==> s[k].version != version,
    ensures
        entries_of(s, version) == Seq::<VersionModel>::empty(),
    decreases s.len(),
{
    reveal_with_fuel(Seq::filter, 1);
    if s.len() > 0 {
        lemma_entries_of_none(s.drop_last(), version);
        assert(s.drop_last().push(s.last()) =~= s);
        s.drop_last().lemma_filter_push(s.last(), has_version(version));
    } else {
        assert(s.filter(has_version(version)) =~= Seq::<VersionModel>::empty());
    }
}

/// Inserting `x` before entries of other versions than its own keeps the
/// order of each version's entries, as appending it would.
proof fn lemma_entries_of_insert(s: Seq<VersionModel>, j: int, x: VersionModel, version: Seq<char>)
    requires
        0 <= j <= s.len(),
        forall|k: int| j <= k < s.len() ==> s[k].version != x.version,
    ensures
        entries_of(s.insert(j, x), version) == entries_of(s.push(x), version),
{
    let p = has_version(version);
    let a = s.take(j);
    let b = s.skip(j);
    assert(s.insert(j, x) =~= a.push(x) + b);
    assert(s =~= a + b);
    Seq::filter_distributes_over_add(a.push(x), b, p);
    Seq::filter_distributes_over_add(a, b, p);
    s.lemma_filter_push(x, p);
    a.lemma_filter_push(x, p);
    if x.version == version {
        lemma_entries_of_none(b, version);
        assert(a.filter(p).push(x) + b.filter(p) =~= a.filter(p).push(x));
        assert((a.filter(p) + b.filter(p)).push(x) =~= a.filter(p).push(x));
    }
}

/// Sorts versions for the download list (a stable insertion sort by
/// [`listing_order`]): the result holds the same entries, each ordered
/// before or with the next, and the entries of one version keep the order
/// they came in.
pub fn sort_versions(list: Vec<VersionInfo>) -> (r: Vec<VersionInfo>)
    ensures
        version_models(r@).to_multiset() == version_models(list@).to_multiset(),
        is_listing_sorted(version_models(r@)),
        forall|v: Seq<char>| #[trigger] entries_of(version_models(r@), v) == entries_of(version_models(list@), v),
{
    let mut list = list;
    let ghost input = version_models(list@);
    let mut out: Vec<Keyed> = Vec::new();
    let ghost mut done: Seq<VersionModel> = Seq::empty();
    while list.len() > 0
        invariant
            done + version_models(list@) == input,
            keyed_models(out@).to_multiset() == done.to_multiset(),
            is_listing_sorted(keyed_models(out@)),
            forall|v: Seq<char>| #[trigger] entries_of(keyed_models(out@), v) == entries_of(done, v),
            forall|i: int| 0 <= i < out@.len() ==> keyed_ok(#[trigger] out@[i]),
        decreases list@.len(),
    {
        let ghost before_list = list@;
        let info = list.remove(0);
        proof {
            assert(version_models(before_list)[0] == info@);
            assert(version_models(list@) =~= version_models(before_list).drop_first());
            assert(done.push(info@) + version_models(list@) =~= input);
        }
        let x = keyed(info);
        let mut j = out.len();
        while j > 0 && order_keyed(&out[j - 1], &x) > 0
            invariant
                j <= out@.len(),
                keyed_ok(x),
                forall|i: int| 0 <= i < out@.len() ==> keyed_ok(#[trigger] out@[i]),
                j < out@.len() ==> listing_order(x.info.version@, out@[j as int].info.version@) < 0,
                forall|k: int| j <= k < out@.len() ==> out@[k].info.version@ != x.info.version@,
            decreases j,
        {
            j -= 1;
        }
        proof {
            if j > 0 {
                assert(listing_order(out@[j - 1].info.version@, x.info.version@) <= 0);
            }
        }
        let ghost before_out = out@;
        let ghost xm = x.info@;
        out.insert(j, x);
        proof {
            assert(keyed_models(out@) =~= keyed_models(before_out).insert(j as int, xm));
            lemma_insert_multiset(keyed_models(before_out), j as int, xm);
            let m = keyed_models(out@);
            let b = keyed_models(before_out);
            assert forall|i: int| 0 <= i < m.len() - 1 implies listing_order(
                #[trigger] m[i].version,
                m[i + 1].version,
            ) <= 0 by {
                if i + 1 < j {
                    assert(m[i] == b[i] && m[i + 1] == b[i + 1]);
                } else if i + 1 == j {
                    assert(m[i] == b[i] && m[i + 1] == xm);
                } else if i == j {
                    assert(m[i] == xm && m[i + 1] == b[i]);
                } else {
                    assert(m[i] == b[i - 1] && m[i + 1] == b[i]);
                }
            }
            assert forall|v: Seq<char>| #[trigger] entries_of(m, v) == entries_of(done.push(xm), v) by {
                assert forall|k: int| j <= k < b.len() implies b[k].version != xm.version by {
                    assert(b[k] == before_out[k].info@);
                }
                assert(m == b.insert(j as int, xm));
                lemma_entries_of_insert(b, j as int, xm, v);
                b.lemma_filter_push(xm, has_version(v));
                done.lemma_filter_push(xm, has_version(v));
                assert(entries_of(b, v) == entries_of(done, v));
                assert(entries_of(m, v) == entries_of(b.push(xm), v));
            }
            done = done.push(xm);
        }
    }
    assert(done =~= input);
    let mut r: Vec<VersionInfo> = Vec::new();
    let ghost sorted = keyed_models(out@);
    while out.len() > 0
        invariant
            version_models(r@) + keyed_models(out@) == sorted,
        decreases out@.len(),
    {
        let ghost before_out = out@;
        let k = out.remove(0);
        let ghost before_r = r@;
        r.push(k.info);
        proof {
            assert(keyed_models(before_out)[0] == k.info@);
            assert(keyed_models(out@) =~= keyed_models(before_out).drop_first());
            assert(version_models(r@) =~= version_models(before_r).push(k.info@));
            assert(version_models(r@) + keyed_models(out@) =~= sorted);
        }
    }
    assert(version_models(r@) =~= sorted);
    r
}

/// The instant a text denotes, in milliseconds since the Unix epoch, as
/// `chrono` parses RFC 3339 date-times; `None` when it is not one.
pub uninterp spec fn rfc3339_millis(text: Seq<char>) -> Option<i64>;

/// `chrono::DateTime::parse_from_rfc3339` followed by `timestamp_millis`:
/// the publication time of a release. Claims only that the result is
/// `rfc3339_millis` of the text (the date-time arithmetic is the crate's and
/// does not depend on the local time zone).
#[verifier::external_body]
fn iso_to_millis(text: &str) -> (r: Option<i64>)
    ensures
        r == rfc3339_millis(text@),
{
    chrono::DateTime::parse_from_rfc3339(text).ok().map(|d| d.timestamp_millis())
}

/// One entry of the `versions` object of a registry document, with the
/// values the launcher reads from it.
pub struct RegistryEntry {
    /// The key of the entry.
    pub key: String,
    /// The `version` field of the entry, when it is a string.
    pub version: Option<String>,
    /// The entry of the `time` object under the same key, when it is a string.
    pub published: Option<String>,
}

/// Mathematical model of a [`RegistryEntry`].
pub struct EntryModel {
    pub key: Seq<char>,
    pub version: Option<Seq<char>>,
    pub published: Option<Seq<char>>,
}

impl View for RegistryEntry {
    type V = EntryModel;

    open spec fn view(&self) -> EntryModel {
        EntryModel { key: self.key@, version: self.version.deep_view(), published: self.published.deep_view() }
    }
}

/// The download-list entry made from a registry entry: its `version` field
/// (the key when there is none), the channel of that version, and the
/// publication time when it parses.
pub open spec fn info_of(latest_tag: Option<Seq<char>>, e: EntryModel) -> VersionModel {
    let v = match e.version {
        Some(v) => v,
        None => e.key,
    };
    VersionModel {
        version: v,
        channel: channel_of(v, latest_tag),
        published_at: match e.published {
            Some(t) => rfc3339_millis(t),
            None => None,
        },
    }
}

/// The download list made from the entries of a registry document and its
/// `latest` tag: one entry per registry entry (see [`info_of`]), ordered by
/// [`listing_order`], newest first; entries of one version stay in the
/// order of the document.
pub fn versions_from_registry(latest_tag: Option<String>, entries: Vec<RegistryEntry>) -> (r: Vec<VersionInfo>)
    ensures
        version_models(r@).to_multiset() == entries@.map_values(
            |e: RegistryEntry| info_of(latest_tag.deep_view(), e@),
        ).to_multiset(),
        is_listing_sorted(version_models(r@)),
        forall|v: Seq<char>| #[trigger] entries_of(version_models(r@), v) == entries_of(
            entries@.map_values(|e: RegistryEntry| info_of(latest_tag.deep_view(), e@)),
            v,
        ),
{
    let mut entries = entries;
    let ghost all = entries@.map_values(|e: RegistryEntry| info_of(latest_tag.deep_view(), e@));
    let ghost n = entries@.len();
    let mut out: Vec<VersionInfo> = Vec::new();
    while entries.len() > 0
        invariant
            n == out@.len() + entries@.len(),
            all == version_models(out@) + entries@.map_values(
                |e: RegistryEntry| info_of(latest_tag.deep_view(), e@),
            ),
        decreases entries@.len(),
    {
        let ghost before = entries@;
        let e = entries.remove(0);
        let version = match e.version {
            Some(v) => v,
            None => e.key,
        };
        let tag = match &latest_tag {
            Some(t) => Some(t.as_str()),
            None => None,
        };
        let channel = classify_channel(version.as_str(), tag);
        let published_at = match &e.published {
            Some(t) => iso_to_millis(t.as_str()),
            None => None,
        };
        let info = VersionInfo { version, channel, published_at };
        let ghost before_out = out@;
        out.push(info);
        proof {
            let f = |e: RegistryEntry| info_of(latest_tag.deep_view(), e@);
            assert(before.map_values(f)[0] == info@);
            assert(entries@.map_values(f) =~= before.map_values(f).drop_first());
            assert(version_models(out@) =~= version_models(before_out).push(info@));
            assert(version_models(out@) + entries@.map_values(f) =~= version_models(before_out)
                + before.map_values(f));
        }
    }
    assert(version_models(out@) =~= all);
    sort_versions(out)
}

/// The download list of a registry document: its `latest` tag and the
/// entries of its `versions` object, `None` when the document has no such
/// object, which is an error.
pub fn registry_listing(latest_tag: Option<String>, versions: Option<Vec<RegistryEntry>>) -> (r: Result<
    Vec<VersionInfo>,
    String,
>)
    ensures
        versions is None ==> (r matches Err(e) && e@ == "registry 数据缺少 versions 字段"@),
        versions matches Some(entries) ==> (r matches Ok(list) && {
            &&& version_models(list@).to_multiset() == entries@.map_values(
                |e: RegistryEntry| info_of(latest_tag.deep_view(), e@),
            ).to_multiset()
            &&& is_listing_sorted(version_models(list@))
            &&& forall|v: Seq<char>| #[trigger] entries_of(version_models(list@), v) == entries_of(
                entries@.map_values(|e: RegistryEntry| info_of(latest_tag.deep_view(), e@)),
                v,
            )
        }),
{
    match versions {
        Some(entries) => Ok(versions_from_registry(latest_tag, entries)),
        None => Err(owned("registry 数据缺少 versions 字段")),
    }
}

} // verus!
