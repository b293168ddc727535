//! Instances: identifiers, their generation from display names, their
//! directory layout, metadata and the rules for creating and editing them.

use vstd::prelude::*;
use crate::layout::{texts, DataPath};
use crate::text::{
    char_is_ascii_alnum, chars_of, is_ascii_alnum, is_space, owned, push_char, string_of, trim,
    trim_bounds, trim_end, trim_start, utf8_len, utf8_len_exceeds, same_text,
};

verus! {

/// Longest accepted instance id, in UTF-8 bytes.
pub const MAX_ID_BYTES: usize = 80;

/// Characters allowed in an instance id.
pub open spec fn is_id_char(c: char) -> bool {
    is_ascii_alnum(c) || c == '-' || c == '_'
}

/// What `check_id` accepts: a non-empty id of at most 80 bytes made only of
/// ASCII letters, digits, `-` and `_`.
pub open spec fn id_is_valid(id: Seq<char>) -> bool {
    &&& id.len() > 0
    &&& utf8_len(id) <= MAX_ID_BYTES
    &&& forall|i: int| 0 <= i < id.len() ==> is_id_char(#[trigger] id[i])
}

/// Why `check_id` rejects `id`: empty or too long, or a forbidden character.
pub open spec fn id_error(id: Seq<char>) -> Seq<char> {
    if id.len() == 0 || utf8_len(id) > MAX_ID_BYTES {
        "实例 id 非法"@
    } else {
        "实例 id 含非法字符"@
    }
}

/// Whether `c` may stand in an instance id.
pub fn char_is_id_char(c: char) -> (r: bool)
    ensures
        r == is_id_char(c),
{
    char_is_ascii_alnum(c) || c == '-' || c == '_'
}

/// Checks an instance id. This is the one place where ids coming from the
/// user interface are vetted before they take part in any path.
pub fn check_id(id: &str) -> (r: Result<(), String>)
    ensures
        r is Ok <==> id_is_valid(id@),
        r matches Err(e) ==> e@ == id_error(id@),
{
    let v = chars_of(id);
    if v.len() == 0 || utf8_len_exceeds(&v, MAX_ID_BYTES) {
        return Err(owned("实例 id 非法"));
    }
    let mut i: usize = 0;
    while i < v.len()
        invariant
            i <= v@.len(),
            v@ == id@,
            v@.len() > 0,
            utf8_len(v@) <= MAX_ID_BYTES,
            forall|k: int| 0 <= k < i ==> is_id_char(#[trigger] v@[k]),
        decreases v@.len() - i,
    {
        if !char_is_id_char(v[i]) {
            return Err(owned("实例 id 含非法字符"));
        }
        i += 1;
    }
    Ok(())
}

/// An accepted id holds no path separator, drive colon or dot, so it names
/// exactly one entry inside the directory it is joined to and can never
/// climb out of it.
pub proof fn lemma_valid_id_is_single_component(id: Seq<char>)
    requires
        id_is_valid(id),
    ensures
        id.len() > 0,
        forall|i: int|
            0 <= i < id.len() ==> #[trigger] id[i] != '/' && id[i] != '\\' && id[i] != ':' && id[i]
                != '.',
{
}

// ---------- slugs and generated ids ----------

/// How `sanitize_slug` maps one character.
pub open spec fn slug_char(c: char) -> char {
    if is_id_char(c) {
        c
    } else {
        '-'
    }
}

/// `s` without its leading `-`.
pub open spec fn strip_dash_start(s: Seq<char>) -> Seq<char>
    decreases s.len(),
{
    if s.len() > 0 && s[0] == '-' {
        strip_dash_start(s.drop_first())
    } else {
        s
    }
}

/// `s` without its trailing `-`.
pub open spec fn strip_dash_end(s: Seq<char>) -> Seq<char>
    decreases s.len(),
{
    if s.len() > 0 && s.last() == '-' {
        strip_dash_end(s.drop_last())
    } else {
        s
    }
}

/// The slug of a display name: the trimmed name with every character other
/// than ASCII letters, digits, `-` and `_` replaced by `-`, without leading
/// or trailing `-`; `instance` when nothing is left.
pub open spec fn slug_of(name: Seq<char>) -> Seq<char> {
    let core = strip_dash_end(strip_dash_start(trim(name).map_values(|c: char| slug_char(c))));
    if core.len() == 0 {
        "instance"@
    } else {
        core
    }
}

proof fn lemma_strip_start_step(s: Seq<char>, i: int)
    requires
        0 <= i < s.len(),
        s[i] == '-',
    ensures
        strip_dash_start(s.subrange(i, s.len() as int)) == strip_dash_start(
            s.subrange(i + 1, s.len() as int),
        ),
{
    assert(s.subrange(i, s.len() as int).drop_first() == s.subrange(i + 1, s.len() as int));
}

proof fn lemma_strip_end_step(s: Seq<char>, j: int)
    requires
        0 < j <= s.len(),
        s[j - 1] == '-',
    ensures
        strip_dash_end(s.subrange(0, j)) == strip_dash_end(s.subrange(0, j - 1)),
{
    assert(s.subrange(0, j).drop_last() == s.subrange(0, j - 1));
}

/// `strip_dash_start` keeps a suffix that does not begin with `-`.
pub proof fn lemma_strip_start_shape(s: Seq<char>) -> (k: int)
    ensures
        0 <= k <= s.len(),
        strip_dash_start(s) == s.subrange(k, s.len() as int),
        k < s.len() ==> s[k] != '-',
        forall|i: int| 0 <= i < k ==> s[i] == '-',
    decreases s.len(),
{
    if s.len() > 0 && s[0] == '-' {
        let k1 = lemma_strip_start_shape(s.drop_first());
        assert(s.drop_first().subrange(k1, s.drop_first().len() as int) == s.subrange(
            k1 + 1,
            s.len() as int,
        ));
        assert forall|i: int| 0 <= i < k1 + 1 implies s[i] == '-' by {
            if i > 0 {
                assert(s[i] == s.drop_first()[i - 1]);
            }
        }
        k1 + 1
    } else {
        assert(s.subrange(0, s.len() as int) == s);
        0
    }
}

/// `strip_dash_end` keeps a prefix that does not end with `-`.
pub proof fn lemma_strip_end_shape(s: Seq<char>) -> (k: int)
    ensures
        0 <= k <= s.len(),
        strip_dash_end(s) == s.subrange(0, k),
        k > 0 ==> s[k - 1] != '-',
        forall|i: int| k <= i < s.len() ==> s[i] == '-',
    decreases s.len(),
{
    if s.len() > 0 && s.last() == '-' {
        let k1 = lemma_strip_end_shape(s.drop_last());
        assert(s.drop_last().subrange(0, k1) == s.subrange(0, k1));
        assert forall|i: int| k1 <= i < s.len() implies s[i] == '-' by {
            if i < s.len() - 1 {
                assert(s[i] == s.drop_last()[i]);
            }
        }
        k1
    } else {
        assert(s.subrange(0, s.len() as int) == s);
        s.len() as int
    }
}

/// `trim` keeps a contiguous part of its input.
pub proof fn lemma_trim_len(s: Seq<char>)
    ensures
        trim(s).len() <= s.len(),
{
    lemma_trim_start_len(s);
    lemma_trim_end_len(trim_start(s));
}

proof fn lemma_trim_start_len(s: Seq<char>)
    ensures
        trim_start(s).len() <= s.len(),
    decreases s.len(),
{
    if s.len() > 0 && is_space(s[0]) {
        lemma_trim_start_len(s.drop_first());
    }
}

proof fn lemma_trim_end_len(s: Seq<char>)
    ensures
        trim_end(s).len() <= s.len(),
    decreases s.len(),
{
    if s.len() > 0 && is_space(s.last()) {
        lemma_trim_end_len(s.drop_last());
    }
}

/// A slug is never empty, consists only of id characters, neither begins
/// nor ends with `-`, and is no longer than the trimmed name (or than
/// `instance`).
pub proof fn lemma_slug_shape(name: Seq<char>)
    ensures
        slug_of(name).len() > 0,
        forall|i: int| 0 <= i < slug_of(name).len() ==> is_id_char(#[trigger] slug_of(name)[i]),
        slug_of(name)[0] != '-',
        slug_of(name).last() != '-',
        slug_of(name).len() <= 8 || slug_of(name).len() <= trim(name).len(),
{
    reveal_strlit("instance");
    let m = trim(name).map_values(|c: char| slug_char(c));
    let a = lemma_strip_start_shape(m);
    let s1 = strip_dash_start(m);
    let b = lemma_strip_end_shape(s1);
    let core = strip_dash_end(s1);
    assert(core == m.subrange(a, a + b));
    if core.len() > 0 {
        assert(forall|i: int| 0 <= i < core.len() ==> core[i] == m[a + i]);
        assert(forall|i: int| 0 <= i < m.len() ==> is_id_char(#[trigger] m[i]));
        assert(core[0] == s1[0]);
    }
}

/// The slug is a stretch `[a, b)` of the trimmed name copied character by
/// character, with every ASCII letter, digit, `-` and `_` kept as it is and
/// every other character replaced by `-`. Outside the stretch the trimmed
/// name holds no ASCII letter, digit or `_`; inside, the stretch begins and
/// ends with one. When there is no such character at all, the slug is
/// `instance`.
pub proof fn lemma_slug_keeps_name_chars(name: Seq<char>)
    ensures
        exists|a: int, b: int|
            #![trigger trim(name).subrange(a, b)]
            {
                let t = trim(name);
                let seg = trim(name).subrange(a, b);
                &&& 0 <= a <= b <= t.len()
                &&& forall|i: int|
                    (0 <= i < a || b <= i < t.len()) ==> !(('0' <= #[trigger] t[i] <= '9') || ('a'
                        <= t[i] <= 'z') || ('A' <= t[i] <= 'Z') || t[i] == '_')
                &&& seg.len() == 0 ==> slug_of(name) == "instance"@
                &&& seg.len() > 0 ==> {
                    &&& slug_of(name).len() == seg.len()
                    &&& forall|i: int|
                        0 <= i < seg.len() ==> #[trigger] slug_of(name)[i] == if ('0' <= seg[i] <= '9')
                            || ('a' <= seg[i] <= 'z') || ('A' <= seg[i] <= 'Z') || seg[i] == '-'
                            || seg[i] == '_' {
                            seg[i]
                        } else {
                            '-'
                        }
                    &&& (('0' <= seg[0] <= '9') || ('a' <= seg[0] <= 'z') || ('A' <= seg[0] <= 'Z')
                        || seg[0] == '_')
                    &&& (('0' <= seg.last() <= '9') || ('a' <= seg.last() <= 'z') || ('A' <= seg.last()
                        <= 'Z') || seg.last() == '_')
                }
            },
{
    let t = trim(name);
    let m = t.map_values(|c: char| slug_char(c));
    let a = lemma_strip_start_shape(m);
    let s1 = strip_dash_start(m);
    let k = lemma_strip_end_shape(s1);
    let core = strip_dash_end(s1);
    let b = a + k;
    let seg = t.subrange(a, b);
    assert(core == m.subrange(a, b));
    assert(core =~= seg.map_values(|c: char| slug_char(c)));
    assert forall|i: int| (0 <= i < a || b <= i < t.len()) implies !(('0' <= #[trigger] t[i] <= '9')
        || ('a' <= t[i] <= 'z') || ('A' <= t[i] <= 'Z') || t[i] == '_') by {
        if i >= b {
            assert(s1[i - a] == m[i]);
        }
        assert(m[i] == slug_char(t[i]));
    }
    if a < b {
        assert(slug_of(name) == core);
        assert forall|i: int| 0 <= i < seg.len() implies #[trigger] slug_of(name)[i] == if ('0' <= seg[i]
            <= '9') || ('a' <= seg[i] <= 'z') || ('A' <= seg[i] <= 'Z') || seg[i] == '-' || seg[i]
            == '_' {
            seg[i]
        } else {
            '-'
        } by {
            assert(core[i] == slug_char(seg[i]));
        }
        assert(m[a] == slug_char(seg[0]));
        assert(s1[k - 1] == m[b - 1]);
        assert(m[b - 1] == slug_char(seg.last()));
    }
    assert(0 <= a <= b <= t.len());
}

/// Characters of `name` with the slug mapping applied, between `from` and `to`.
fn slug_chars(v: &Vec<char>, from: usize, to: usize) -> (m: Vec<char>)
    requires
        from <= to <= v@.len(),
    ensures
        m@ == v@.subrange(from as int, to as int).map_values(|c: char| slug_char(c)),
{
    let mut m: Vec<char> = Vec::new();
    let mut i = from;
    while i < to
        invariant
            from <= i <= to <= v@.len(),
            m@ == v@.subrange(from as int, i as int).map_values(|c: char| slug_char(c)),
        decreases to - i,
    {
        let c = v[i];
        let d = if char_is_id_char(c) {
            c
        } else {
            '-'
        };
        m.push(d);
        assert(v@.subrange(from as int, i + 1).map_values(|c: char| slug_char(c)) =~= v@.subrange(
            from as int,
            i as int,
        ).map_values(|c: char| slug_char(c)).push(slug_char(v@[i as int])));
        i += 1;
    }
    m
}

/// Turns a display name into a directory-safe id stem: only ASCII letters,
/// digits, `-` and `_` are kept, everything else becomes `-`, and leading and
/// trailing `-` are dropped; an empty result becomes `instance`.
pub fn sanitize_slug(name: &str) -> (r: String)
    ensures
        r@ == slug_of(name@),
{
    let v = chars_of(name);
    let (a, b) = trim_bounds(&v);
    let m = slug_chars(&v, a, b);
    assert(m@ == trim(name@).map_values(|c: char| slug_char(c)));
    let n = m.len();
    let mut p: usize = 0;
    assert(m@.subrange(0, n as int) == m@);
    while p < n && m[p] == '-'
        invariant
            p <= n == m@.len(),
            strip_dash_start(m@) == strip_dash_start(m@.subrange(p as int, n as int)),
        decreases n - p,
    {
        proof {
            lemma_strip_start_step(m@, p as int);
        }
        p += 1;
    }
    let ghost t = m@.subrange(p as int, n as int);
    assert(strip_dash_start(m@) == t);
    let mut q: usize = n;
    assert(t.subrange(0, t.len() as int) == t);
    while q > p && m[q - 1] == '-'
        invariant
            p <= q <= n == m@.len(),
            strip_dash_end(strip_dash_start(m@)) == strip_dash_end(m@.subrange(p as int, q as int)),
        decreases q - p,
    {
        proof {
            let u = m@.subrange(p as int, q as int);
            lemma_strip_end_step(u, (q - p) as int);
            assert(u.subrange(0, (q - p) as int) == u);
            assert(u.subrange(0, (q - p - 1) as int) == m@.subrange(p as int, q - 1));
        }
        q -= 1;
    }
    if p == q {
        owned("instance")
    } else {
        string_of(&m, p, q)
    }
}

/// Lower-case hexadecimal digit of `d`.
pub open spec fn hex_digit(d: int) -> char {
    if d < 10 {
        (('0' as int) + d) as char
    } else {
        (('a' as int) + d - 10) as char
    }
}

/// The five-digit, zero-padded lower-case hexadecimal form of `v`
/// (`format!("{:05x}", v)` for `v < 0x100000`).
pub open spec fn hex5(v: int) -> Seq<char> {
    seq![
        hex_digit((v / 0x10000) % 16),
        hex_digit((v / 0x1000) % 16),
        hex_digit((v / 0x100) % 16),
        hex_digit((v / 0x10) % 16),
        hex_digit(v % 16),
    ]
}

/// The id generated for `name` from the clock reading `nanos`: the slug of
/// the name, `-`, and the low 20 bits of `nanos` as five hex digits.
pub open spec fn generated_id(name: Seq<char>, nanos: u64) -> Seq<char> {
    slug_of(name) + seq!['-'] + hex5((nanos % 0x100000) as int)
}

fn hex_char(d: u64) -> (c: char)
    requires
        d < 16,
    ensures
        c == hex_digit(d as int),
{
    if d < 10 {
        ((d as u8) + 48u8) as char
    } else {
        ((d as u8) + 87u8) as char
    }
}

/// Builds a new instance id from a display name and a clock reading: the
/// slug of the name, `-`, and `nanos & 0xfffff` as five lower-case hex
/// digits. The clock is read by the caller.
pub fn gen_id(name: &str, nanos: u64) -> (r: String)
    ensures
        r@ == generated_id(name@, nanos),
{
    let v = nanos & 0xfffff;
    assert(nanos & 0xfffff == nanos % 0x100000) by (bit_vector);
    let mut r = sanitize_slug(name);
    let ghost slug = r@;
    push_char(&mut r, '-');
    push_char(&mut r, hex_char((v / 0x10000) % 16));
    push_char(&mut r, hex_char((v / 0x1000) % 16));
    push_char(&mut r, hex_char((v / 0x100) % 16));
    push_char(&mut r, hex_char((v / 0x10) % 16));
    push_char(&mut r, hex_char(v % 16));
    assert(r@ =~= slug + seq!['-'] + hex5(v as int));
    r
}

proof fn lemma_ascii_utf8_len(s: Seq<char>)
    requires
        forall|i: int| 0 <= i < s.len() ==> (#[trigger] s[i] as u32) < 0x80,
    ensures
        utf8_len(s) == s.len(),
    decreases s.len(),
{
    if s.len() > 0 {
        assert(forall|i: int| 0 <= i < s.drop_last().len() ==> s.drop_last()[i] == s[i]);
        lemma_ascii_utf8_len(s.drop_last());
        assert((s.last() as u32) < 0x80);
    }
}

/// Every id generated from a name whose trimmed form has at most 74
/// characters passes `check_id`.
pub proof fn lemma_generated_id_is_valid(name: Seq<char>, nanos: u64)
    requires
        trim(name).len() <= 74,
    ensures
        id_is_valid(generated_id(name, nanos)),
{
    lemma_slug_shape(name);
    let s = slug_of(name);
    let v = (nanos % 0x100000) as int;
    let h = hex5(v);
    let id = generated_id(name, nanos);
    assert(forall|i: int| 0 <= i < 5 ==> 0 <= #[trigger] ((h[i] as u32) as int) < 0x80 && is_id_char(h[i])) by {
        assert(0 <= v / 0x10000 % 16 < 16);
        assert(0 <= v / 0x1000 % 16 < 16);
        assert(0 <= v / 0x100 % 16 < 16);
        assert(0 <= v / 0x10 % 16 < 16);
        assert(0 <= v % 16 < 16);
    }
    assert forall|i: int| 0 <= i < id.len() implies is_id_char(#[trigger] id[i]) && (id[i] as u32)
        < 0x80 by {
        if i < s.len() {
            assert(id[i] == s[i]);
        } else if i == s.len() {
            assert(id[i] == '-');
        } else {
            assert(id[i] == h[i - s.len() - 1]);
        }
    }
    lemma_ascii_utf8_len(id);
}


// ---------- directory layout ----------

/// Directory holding all instances: `<data_root>/instances`.
pub fn instances_root(data_root: &DataPath) -> (r: DataPath)
    ensures
        r@ == data_root@.join("instances"@),
{
    data_root.join("instances")
}

/// Directory of the instance `id`: `<data_root>/instances/<id>`. The id is
/// vetted by [`check_id`] first and the same errors are returned.
pub fn instance_dir(data_root: &DataPath, id: &str) -> (r: Result<DataPath, String>)
    ensures
        r is Ok <==> id_is_valid(id@),
        r matches Ok(p) ==> p@ == data_root@.join("instances"@).join(id@),
        r matches Err(e) ==> e@ == id_error(id@),
{
    match check_id(id) {
        Ok(()) => Ok(instances_root(data_root).join(id)),
        Err(e) => Err(e),
    }
}

/// File that records the display order of instances: `<data_root>/instance-order.json`.
pub fn order_file(data_root: &DataPath) -> (r: DataPath)
    ensures
        r@ == data_root@.join("instance-order.json"@),
{
    data_root.join("instance-order.json")
}

/// What `serde_json::from_str::<Vec<String>>` makes of a text: the list of
/// strings when the text is a JSON array of strings, `None` otherwise.
pub uninterp spec fn json_string_list(text: Seq<char>) -> Option<Seq<Seq<char>>>;

/// `serde_json::from_str::<Vec<String>>`, the error dropped. Claims only
/// that the result is `json_string_list` of the text.
#[verifier::external_body]
fn parse_string_list(text: &str) -> (r: Option<Vec<String>>)
    ensures
        match (r, json_string_list(text@)) {
            (Some(v), Some(l)) => texts(v@) == l,
            (None, None) => true,
            _ => false,
        },
{
    serde_json::from_str::<Vec<String>>(text).ok()
}

/// The instance order recorded in the text of the order file; empty when
/// the text is not a JSON array of strings.
pub fn parse_order(text: &str) -> (r: Vec<String>)
    ensures
        json_string_list(text@) matches Some(l) ==> texts(r@) == l,
        json_string_list(text@) is None ==> r@.len() == 0,
{
    match parse_string_list(text) {
        Some(order) => order,
        None => Vec::new(),
    }
}

/// What `serde_json::to_string_pretty` prints for a list of strings.
pub uninterp spec fn json_list_text(list: Seq<Seq<char>>) -> Seq<char>;

/// `serde_json::to_string_pretty` of a list of strings. Claims that the text
/// is `json_list_text` of the strings. Printing strings cannot fail, so the
/// error arm is never taken.
#[verifier::external_body]
fn render_string_list(list: &Vec<String>) -> (r: String)
    ensures
        r@ == json_list_text(texts(list@)),
{
    match serde_json::to_string_pretty(list) {
        Ok(text) => text,
        Err(e) => e.to_string(),
    }
}

/// The text of the order file that records `order`.
pub fn render_order(order: &Vec<String>) -> (r: String)
    ensures
        r@ == json_list_text(texts(order@)),
{
    render_string_list(order)
}

/// Metadata file of an instance directory: `<dir>/instance.json`.
pub fn meta_path(dir: &DataPath) -> (r: DataPath)
    ensures
        r@ == dir@.join("instance.json"@),
{
    dir.join("instance.json")
}

// ---------- metadata ----------

/// Metadata of one instance, stored as `instance.json` in its directory.
pub struct InstanceMeta {
    pub id: String,
    pub name: String,
    pub icon: String,
    pub color: Option<String>,
    pub port: u16,
    pub dsh_version: Option<String>,
    pub created_at: i64,
    pub last_launched_at: Option<i64>,
}

/// Mathematical model of [`InstanceMeta`].
pub struct MetaModel {
    pub id: Seq<char>,
    pub name: Seq<char>,
    pub icon: Seq<char>,
    pub color: Option<Seq<char>>,
    pub port: u16,
    pub dsh_version: Option<Seq<char>>,
    pub created_at: i64,
    pub last_launched_at: Option<i64>,
}

impl View for InstanceMeta {
    type V = MetaModel;

    open spec fn view(&self) -> MetaModel {
        MetaModel {
            id: self.id@,
            name: self.name@,
            icon: self.icon@,
            color: self.color.deep_view(),
            port: self.port,
            dsh_version: self.dsh_version.deep_view(),
            created_at: self.created_at,
            last_launched_at: self.last_launched_at,
        }
    }
}

/// Icon of an instance that was given none.
pub open spec fn default_icon() -> Seq<char> {
    "\u{1F680}"@
}

/// A copy of an optional string.
pub fn copy_opt(s: &Option<String>) -> (r: Option<String>)
    ensures
        r.deep_view() == s.deep_view(),
{
    match s {
        Some(t) => Some(t.clone()),
        None => None,
    }
}

impl InstanceMeta {
    /// A copy of this metadata.
    pub fn duplicate(&self) -> (r: InstanceMeta)
        ensures
            r@ == self@,
    {
        InstanceMeta {
            id: self.id.clone(),
            name: self.name.clone(),
            icon: self.icon.clone(),
            color: copy_opt(&self.color),
            port: self.port,
            dsh_version: copy_opt(&self.dsh_version),
            created_at: self.created_at,
            last_launched_at: self.last_launched_at,
        }
    }
}

impl Default for InstanceMeta {
    /// Empty id and name, the rocket icon, port 3080, nothing installed,
    /// never launched, created at 0.
    fn default() -> (r: Self)
        ensures
            r@ == (MetaModel {
                id: Seq::empty(),
                name: Seq::empty(),
                icon: default_icon(),
                color: None,
                port: 3080,
                dsh_version: None,
                created_at: 0,
                last_launched_at: None,
            }),
    {
        InstanceMeta {
            id: String::new(),
            name: String::new(),
            icon: owned("\u{1F680}"),
            color: None,
            port: 3080,
            dsh_version: None,
            created_at: 0,
            last_launched_at: None,
        }
    }
}

/// Longest accepted display name of a new instance, in characters.
pub const MAX_NAME_CHARS: usize = 40;

/// Vets the display name of a new instance: it is trimmed, must not be empty
/// and may hold at most 40 characters. Every id generated from an accepted
/// name passes [`check_id`].
pub fn check_new_name(name: &str) -> (r: Result<String, String>)
    ensures
        trim(name@).len() == 0 ==> (r matches Err(e) && e@ == "实例名称不能为空"@),
        trim(name@).len() > MAX_NAME_CHARS ==> (r matches Err(e) && e@ == "实例名称过长"@),
        0 < trim(name@).len() <= MAX_NAME_CHARS ==> (r matches Ok(t) && t@ == trim(name@)),
        r matches Ok(t) ==> forall|nanos: u64| id_is_valid(#[trigger] generated_id(t@, nanos)),
{
    let v = chars_of(name);
    let (a, b) = trim_bounds(&v);
    if a == b {
        return Err(owned("实例名称不能为空"));
    }
    if b - a > MAX_NAME_CHARS {
        return Err(owned("实例名称过长"));
    }
    let t = string_of(&v, a, b);
    proof {
        lemma_trim_len(t@);
        assert forall|nanos: u64| id_is_valid(#[trigger] generated_id(t@, nanos)) by {
            lemma_generated_id_is_valid(t@, nanos);
        }
    }
    Ok(t)
}

/// Metadata of a freshly created instance. Without an icon the rocket is used.
pub fn new_instance_meta(id: String, name: String, icon: Option<String>, port: u16, created_at: i64) -> (r: InstanceMeta)
    ensures
        r@ == (MetaModel {
            id: id@,
            name: name@,
            icon: match icon {
                Some(i) => i@,
                None => default_icon(),
            },
            color: None,
            port: port,
            dsh_version: None,
            created_at: created_at,
            last_launched_at: None,
        }),
{
    let icon = match icon {
        Some(i) => i,
        None => owned("\u{1F680}"),
    };
    InstanceMeta {
        id,
        name,
        icon,
        color: None,
        port,
        dsh_version: None,
        created_at,
        last_launched_at: None,
    }
}

/// Lowest port an instance may be moved to.
pub const MIN_PORT: u16 = 1024;

/// Applies an edit to an instance's metadata. A given name is trimmed and
/// must not be empty; a given icon replaces the old one; a given colour
/// replaces it, the empty colour clearing it; a given port must be at least
/// 1024. On error nothing is changed.
pub fn update_instance(
    meta: InstanceMeta,
    name: Option<String>,
    icon: Option<String>,
    color: Option<String>,
    port: Option<u16>,
) -> (r: Result<InstanceMeta, String>)
    ensures
        (name matches Some(n) && trim(n@).len() == 0) ==> (r matches Err(e) && e@
            == "实例名称不能为空"@),
        !(name matches Some(n) && trim(n@).len() == 0) && (port matches Some(p) && p < MIN_PORT)
            ==> (r matches Err(e) && e@ == "端口需在 1024-65535 之间"@),
        !(name matches Some(n) && trim(n@).len() == 0) && !(port matches Some(p) && p < MIN_PORT)
            ==> (r matches Ok(m) && m@ == (MetaModel {
            name: match name {
                Some(n) => trim(n@),
                None => meta@.name,
            },
            icon: match icon {
                Some(i) => i@,
                None => meta@.icon,
            },
            color: match color {
                Some(c) => if c@.len() == 0 {
                    None
                } else {
                    Some(c@)
                },
                None => meta@.color,
            },
            port: match port {
                Some(p) => p,
                None => meta@.port,
            },
            ..meta@
        })),
{
    let mut meta = meta;
    if let Some(n) = name {
        let v = chars_of(n.as_str());
        let (a, b) = trim_bounds(&v);
        if a == b {
            return Err(owned("实例名称不能为空"));
        }
        meta.name = string_of(&v, a, b);
    }
    if let Some(i) = icon {
        meta.icon = i;
    }
    if let Some(c) = color {
        meta.color = if c.as_str().is_empty() {
            None
        } else {
            Some(c)
        };
    }
    if let Some(p) = port {
        if p < MIN_PORT {
            return Err(owned("端口需在 1024-65535 之间"));
        }
        meta.port = p;
    }
    Ok(meta)
}

/// The listing of instances: every instance read from the order file, in
/// that order, then every instance found only by scanning the instances
/// directory whose id was not listed before, in scan order.
pub open spec fn listing(ordered: Seq<MetaModel>, scanned: Seq<MetaModel>) -> Seq<MetaModel>
    decreases scanned.len(),
{
    if scanned.len() == 0 {
        ordered
    } else {
        let before = listing(ordered, scanned.drop_last());
        if exists|k: int| 0 <= k < before.len() && before[k].id == scanned.last().id {
            before
        } else {
            before.push(scanned.last())
        }
    }
}

/// The listing starts with every instance of the order file, unchanged and
/// in order; each instance after them was found by scanning and has an id
/// that no earlier entry of the listing has.
pub proof fn lemma_listing_adds_only_new_ids(ordered: Seq<MetaModel>, scanned: Seq<MetaModel>)
    ensures
        listing(ordered, scanned).len() >= ordered.len(),
        listing(ordered, scanned).subrange(0, ordered.len() as int) == ordered,
        forall|i: int, j: int|
            ordered.len() <= i < listing(ordered, scanned).len() && 0 <= j < i ==> (#[trigger] listing(
                ordered,
                scanned,
            )[j]).id != (#[trigger] listing(ordered, scanned)[i]).id,
    decreases scanned.len(),
{
    let l = listing(ordered, scanned);
    if scanned.len() == 0 {
        assert(l.subrange(0, ordered.len() as int) =~= ordered);
    } else {
        let before = listing(ordered, scanned.drop_last());
        lemma_listing_adds_only_new_ids(ordered, scanned.drop_last());
        if exists|k: int| 0 <= k < before.len() && before[k].id == scanned.last().id {
            assert(l == before);
        } else {
            assert(l == before.push(scanned.last()));
            assert(l.subrange(0, ordered.len() as int) =~= before.subrange(0, ordered.len() as int));
            assert forall|i: int, j: int|
                ordered.len() <= i < l.len() && 0 <= j < i implies (#[trigger] l[j]).id != (#[trigger] l[i]).id by {
                if i < before.len() {
                    assert(l[i] == before[i] && l[j] == before[j]);
                } else {
                    assert(l[j] == before[j]);
                }
            }
        }
    }
}

/// Models of a list of metadata.
pub open spec fn models(v: Seq<InstanceMeta>) -> Seq<MetaModel> {
    v.map_values(|m: InstanceMeta| m@)
}

fn has_id(v: &Vec<InstanceMeta>, id: &String) -> (r: bool)
    ensures
        r == exists|k: int| 0 <= k < v@.len() && models(v@)[k].id == id@,
{
    let mut i: usize = 0;
    while i < v.len()
        invariant
            i <= v@.len(),
            forall|k: int| 0 <= k < i ==> models(v@)[k].id != id@,
        decreases v@.len() - i,
    {
        if v[i].id == *id {
            assert(models(v@)[i as int].id == id@);
            return true;
        }
        i += 1;
    }
    false
}

/// Builds the instance listing from the instances named by the order file
/// (in order) and those found by scanning the instances directory.
pub fn list_instances(ordered: Vec<InstanceMeta>, scanned: Vec<InstanceMeta>) -> (r: Vec<InstanceMeta>)
    ensures
        models(r@) == listing(models(ordered@), models(scanned@)),
{
    let mut out = ordered;
    let ghost ord = models(out@);
    let mut scanned = scanned;
    let ghost sc = models(scanned@);
    let mut i: usize = 0;
    assert(sc.len() == scanned.len());
    assert(sc.subrange(0, sc.len() as int) =~= sc);
    assert(sc.take(0) =~= Seq::<MetaModel>::empty());
    while scanned.len() > 0
        invariant
            i <= sc.len() <= usize::MAX,
            models(scanned@) == sc.subrange(i as int, sc.len() as int),
            models(out@) == listing(ord, sc.take(i as int)),
        decreases scanned@.len(),
    {
        let ghost before_s = scanned@;
        assert(models(before_s).len() == before_s.len());
        assert(i < sc.len());
        assert(sc.subrange(i as int, sc.len() as int)[0] == sc[i as int]);
        let m = scanned.remove(0);
        assert(sc[i as int] == m@) by {
            assert(before_s[0] == m);
            assert(models(before_s)[0] == before_s[0]@);
            assert(models(before_s)[0] == sc.subrange(i as int, sc.len() as int)[0]);
        }
        assert(models(scanned@) =~= sc.subrange(i + 1, sc.len() as int)) by {
            assert(scanned@ == before_s.remove(0));
            assert forall|k: int| 0 <= k < scanned@.len() implies #[trigger] models(scanned@)[k]
                == sc[i + 1 + k] by {
                assert(scanned@[k] == before_s[k + 1]);
                assert(models(before_s)[k + 1] == before_s[k + 1]@);
                assert(models(before_s)[k + 1] == sc.subrange(i as int, sc.len() as int)[k + 1]);
                assert(sc.subrange(i as int, sc.len() as int)[k + 1] == sc[i + 1 + k]);
            }
        }
        assert(sc.take(i + 1).drop_last() =~= sc.take(i as int));
        if !has_id(&out, &m.id) {
            let ghost o = out@;
            out.push(m);
            assert(models(out@) =~= models(o).push(m@));
        }
        i += 1;
    }
    assert(sc.take(sc.len() as int) =~= sc);
    out
}

/// The order list with every occurrence of `id` removed.
pub fn order_without(order: Vec<String>, id: &str) -> (r: Vec<String>)
    ensures
        texts(r@) == texts(order@).filter(|x: Seq<char>| x != id@),
{
    let mut r: Vec<String> = Vec::new();
    let mut i: usize = 0;
    while i < order.len()
        invariant
            i <= order@.len(),
            texts(r@) == texts(order@).take(i as int).filter(|x: Seq<char>| x != id@),
        decreases order@.len() - i,
    {
        let ghost before = r@;
        assert(texts(order@).take(i + 1).drop_last() =~= texts(order@).take(i as int));
        if !same_text(order[i].as_str(), id) {
            r.push(order[i].clone());
            assert(texts(r@) =~= texts(before).push(order@[i as int]@));
        }
        proof {
            reveal_with_fuel(Seq::filter, 1);
        }
        i += 1;
    }
    assert(texts(order@).take(order@.len() as int) =~= texts(order@));
    r
}

/// The metadata of a copied instance takes the icon and colour of the
/// instance it was copied from; everything else stays as created.
pub fn inherit_appearance(copy: InstanceMeta, source: &InstanceMeta) -> (r: InstanceMeta)
    ensures
        r@ == (MetaModel { icon: source@.icon, color: source@.color, ..copy@ }),
{
    let mut copy = copy;
    copy.icon = source.icon.clone();
    copy.color = copy_opt(&source.color);
    copy
}

} // verus!
