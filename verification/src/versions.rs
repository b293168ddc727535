//! The dsh versions offered by the npm registry and their installation into
//! an instance.

use vstd::prelude::*;
use crate::layout::{arg_models, path_arg, text_arg, ArgModel, CommandArg, DataPath};
use crate::text::{
    chars_of, contains_text, has_prefix, occurs_at, has_text, is_control, is_space, owned, push_char,
    char_is_control, char_is_space, same_text, starts_with, utf8_len, utf8_len_exceeds,
    string_of, trim_end, trim_end_bound,
};
use crate::instance::{id_error, id_is_valid, instance_dir};

verus! {

/// One published dsh version as shown on the download page.
pub struct VersionInfo {
    pub version: String,
    /// `latest` (the registry's latest tag), `alpha`, `rc` or `stable`.
    pub channel: String,
    pub published_at: Option<i64>,
}

/// Mathematical model of [`VersionInfo`].
pub struct VersionModel {
    pub version: Seq<char>,
    pub channel: Seq<char>,
    pub published_at: Option<i64>,
}

impl View for VersionInfo {
    type V = VersionModel;

    open spec fn view(&self) -> VersionModel {
        VersionModel { version: self.version@, channel: self.channel@, published_at: self.published_at }
    }
}

/// Progress of an installation as told to the user interface; `phase` is
/// `resolving`, `installing`, `done` or `error`.
pub struct InstallProgress {
    pub instance_id: String,
    pub version: Option<String>,
    pub phase: String,
    pub line: Option<String>,
}

/// Where an instance's own npm project lives: `<instance>/pkg`.
pub fn pkg_dir(data_root: &DataPath, id: &str) -> (r: Result<DataPath, String>)
    ensures
        r is Ok <==> id_is_valid(id@),
        r matches Ok(p) ==> p@ == data_root@.join("instances"@).join(id@).join("pkg"@),
        r matches Err(e) ==> e@ == id_error(id@),
{
    match instance_dir(data_root, id) {
        Ok(d) => Ok(d.join("pkg")),
        Err(e) => Err(e),
    }
}

/// The `package.json` of the dsh installed in an instance:
/// `<instance>/pkg/node_modules/@deepseek-ai/dsh/package.json`.
pub fn installed_pkg_json(data_root: &DataPath, id: &str) -> (r: Result<DataPath, String>)
    ensures
        r is Ok <==> id_is_valid(id@),
        r matches Ok(p) ==> p@ == data_root@.join("instances"@).join(id@).join("pkg"@).join(
            "node_modules"@,
        ).join("@deepseek-ai"@).join("dsh"@).join("package.json"@),
        r matches Err(e) ==> e@ == id_error(id@),
{
    match pkg_dir(data_root, id) {
        Ok(p) => Ok(p.join("node_modules").join("@deepseek-ai").join("dsh").join("package.json")),
        Err(e) => Err(e),
    }
}

/// The entry script of the dsh installed in an instance:
/// `<instance>/pkg/node_modules/@deepseek-ai/dsh/lib/bin.js`.
pub fn bin_entry(data_root: &DataPath, id: &str) -> (r: Result<DataPath, String>)
    ensures
        r is Ok <==> id_is_valid(id@),
        r matches Ok(p) ==> p@ == data_root@.join("instances"@).join(id@).join("pkg"@).join(
            "node_modules"@,
        ).join("@deepseek-ai"@).join("dsh"@).join("lib"@).join("bin.js"@),
        r matches Err(e) ==> e@ == id_error(id@),
{
    match pkg_dir(data_root, id) {
        Ok(p) => Ok(p.join("node_modules").join("@deepseek-ai").join("dsh").join("lib").join("bin.js")),
        Err(e) => Err(e),
    }
}

/// Longest accepted registry address, in UTF-8 bytes.
pub const MAX_REGISTRY_BYTES: usize = 200;

/// What `valid_registry` accepts: an `http://` or `https://` address of at
/// most 200 bytes without `White_Space` or control characters.
pub open spec fn registry_is_valid(url: Seq<char>) -> bool {
    &&& (starts_with(url, "https://"@) || starts_with(url, "http://"@))
    &&& utf8_len(url) <= MAX_REGISTRY_BYTES
    &&& forall|i: int| 0 <= i < url.len() ==> !is_space(#[trigger] url[i]) && !is_control(url[i])
}

/// Whether a registry address may be handed to npm: only plain http(s)
/// addresses are, so that no other text reaches the command line.
pub fn valid_registry(url: &str) -> (r: bool)
    ensures
        r == registry_is_valid(url@),
{
    let v = chars_of(url);
    if !(has_prefix(&v, &chars_of("https://")) || has_prefix(&v, &chars_of("http://"))) {
        return false;
    }
    if utf8_len_exceeds(&v, MAX_REGISTRY_BYTES) {
        return false;
    }
    let mut i: usize = 0;
    while i < v.len()
        invariant
            i <= v@.len(),
            v@ == url@,
            forall|k: int| 0 <= k < i ==> !is_space(#[trigger] v@[k]) && !is_control(v@[k]),
        decreases v@.len() - i,
    {
        if char_is_space(v[i]) || char_is_control(v[i]) {
            return false;
        }
        i += 1;
    }
    true
}

/// The channel of a version: `latest` for the registry's latest tag, else
/// `alpha` when it mentions alpha, `rc` for any other pre-release (one with
/// a `-`), `stable` otherwise.
pub open spec fn channel_of(version: Seq<char>, latest_tag: Option<Seq<char>>) -> Seq<char> {
    if latest_tag == Some(version) {
        "latest"@
    } else if contains_text(version, "alpha"@) {
        "alpha"@
    } else if contains_text(version, "-"@) {
        "rc"@
    } else {
        "stable"@
    }
}

/// A version that the registry's `latest` tag names is in the `latest`
/// channel whatever its text holds. Any other version is `alpha` when its
/// text holds `alpha`, else `rc` when it holds a `-` (a pre-release), else
/// `stable`.
pub proof fn lemma_channel_rules(version: Seq<char>, latest_tag: Option<Seq<char>>)
    ensures
        latest_tag == Some(version) ==> channel_of(version, latest_tag) == "latest"@,
        latest_tag != Some(version) && (exists|i: int|
            0 <= i && i + 5 <= version.len() && #[trigger] version.subrange(i, i + 5) == "alpha"@)
            ==> channel_of(version, latest_tag) == "alpha"@,
        latest_tag != Some(version) && !(exists|i: int|
            0 <= i && i + 5 <= version.len() && #[trigger] version.subrange(i, i + 5) == "alpha"@)
            && (exists|i: int| 0 <= i < version.len() && version[i] == '-')
            ==> channel_of(version, latest_tag) == "rc"@,
        latest_tag != Some(version) && !(exists|i: int|
            0 <= i && i + 5 <= version.len() && #[trigger] version.subrange(i, i + 5) == "alpha"@)
            && !(exists|i: int| 0 <= i < version.len() && version[i] == '-')
            ==> channel_of(version, latest_tag) == "stable"@,
{
    reveal_strlit("alpha");
    reveal_strlit("-");
    assert(contains_text(version, "alpha"@) <==> exists|i: int|
        0 <= i && i + 5 <= version.len() && #[trigger] version.subrange(i, i + 5) == "alpha"@) by {
        if contains_text(version, "alpha"@) {
            let i = choose|i: int| occurs_at(version, "alpha"@, i);
            assert(version.subrange(i, i + 5) == "alpha"@);
        }
        if exists|i: int| 0 <= i && i + 5 <= version.len() && #[trigger] version.subrange(i, i + 5) == "alpha"@ {
            let i = choose|i: int| 0 <= i && i + 5 <= version.len() && #[trigger] version.subrange(i, i + 5) == "alpha"@;
            assert(occurs_at(version, "alpha"@, i));
        }
    }
    assert(contains_text(version, "-"@) <==> exists|i: int| 0 <= i < version.len() && version[i] == '-') by {
        if contains_text(version, "-"@) {
            let i = choose|i: int| occurs_at(version, "-"@, i);
            assert(version.subrange(i, i + 1)[0] == version[i]);
        }
        if exists|i: int| 0 <= i < version.len() && version[i] == '-' {
            let i = choose|i: int| 0 <= i < version.len() && version[i] == '-';
            assert(version.subrange(i, i + 1) =~= "-"@);
            assert(occurs_at(version, "-"@, i));
        }
    }
}

/// Sorts a version into its channel, see [`channel_of`].
pub fn classify_channel(version: &str, latest_tag: Option<&str>) -> (r: String)
    ensures
        r@ == channel_of(
            version@,
            match latest_tag {
                Some(t) => Some(t@),
                None => None,
            },
        ),
{
    let is_latest = match latest_tag {
        Some(t) => same_text(version, t),
        None => false,
    };
    if is_latest {
        return owned("latest");
    }
    let v = chars_of(version);
    if has_text(&v, &chars_of("alpha")) {
        owned("alpha")
    } else if has_text(&v, &chars_of("-")) {
        owned("rc")
    } else {
        owned("stable")
    }
}

/// `s` without its trailing `/` (`str::trim_end_matches('/')`).
pub open spec fn without_trailing_slashes(s: Seq<char>) -> Seq<char>
    decreases s.len(),
{
    if s.len() > 0 && s.last() == '/' {
        without_trailing_slashes(s.drop_last())
    } else {
        s
    }
}

/// `without_trailing_slashes` drops exactly the trailing `/`: it keeps the
/// part of `s` before `j`, which does not end with `/`, and from `j` on `s`
/// holds only `/`.
pub proof fn lemma_without_trailing_slashes_shape(s: Seq<char>) -> (j: int)
    ensures
        0 <= j <= s.len(),
        without_trailing_slashes(s) == s.subrange(0, j),
        forall|k: int| j <= k < s.len() ==> #[trigger] s[k] == '/',
        j > 0 ==> s[j - 1] != '/',
    decreases s.len(),
{
    if s.len() > 0 && s.last() == '/' {
        let j1 = lemma_without_trailing_slashes_shape(s.drop_last());
        assert(s.drop_last().subrange(0, j1) == s.subrange(0, j1));
        assert forall|k: int| j1 <= k < s.len() implies #[trigger] s[k] == '/' by {
            if k < s.len() - 1 {
                assert(s[k] == s.drop_last()[k]);
            }
        }
        j1
    } else {
        assert(s.subrange(0, s.len() as int) == s);
        s.len() as int
    }
}

/// What is answered when the registry address is refused.
pub open spec fn registry_error() -> Seq<char> {
    "registry 设置非法（仅允许 http/https 地址）"@
}

/// Exactly the addresses that begin with `https://` or `http://`, take at
/// most 200 bytes in UTF-8 and hold no `White_Space` or control character
/// are accepted, whatever other characters (such as `/`, `:` or `?`) they
/// hold.
pub proof fn lemma_registry_acceptance(url: Seq<char>)
    ensures
        registry_is_valid(url) <==> {
            &&& ((url.len() >= 8 && url.subrange(0, 8) == "https://"@) || (url.len() >= 7
                && url.subrange(0, 7) == "http://"@))
            &&& utf8_len(url) <= 200
            &&& forall|i: int| 0 <= i < url.len() ==> !is_space(#[trigger] url[i]) && !is_control(url[i])
        },
{
    reveal_strlit("https://");
    reveal_strlit("http://");
}

/// Refuses a registry address that [`valid_registry`] does not accept.
pub fn check_registry(url: &str) -> (r: Result<(), String>)
    ensures
        r is Ok <==> registry_is_valid(url@),
        r matches Err(e) ==> e@ == registry_error(),
{
    if valid_registry(url) {
        Ok(())
    } else {
        Err(owned("registry 设置非法（仅允许 http/https 地址）"))
    }
}

/// The npm package that instances install.
pub const DSH_PACKAGE: &'static str = "@deepseek-ai/dsh";

/// What `serde_json::to_string_pretty` prints for the document
/// `{"name": name, "private": true, "dependencies": {package: version}}`.
pub uninterp spec fn manifest_json(name: Seq<char>, package: Seq<char>, version: Seq<char>) -> Seq<char>;

/// `serde_json::to_string_pretty` of a `package.json` document with the
/// given name, marked private, that depends on `package` at `version`.
/// Claims that the text is `manifest_json` of the three texts. Printing a
/// `serde_json::Value` whose maps have string keys cannot fail, so the
/// error arm is never taken.
#[verifier::external_body]
fn render_manifest(name: &str, package: &str, version: &str) -> (r: String)
    ensures
        r@ == manifest_json(name@, package@, version@),
{
    let mut deps = serde_json::Map::new();
    deps.insert(package.to_string(), serde_json::Value::String(version.to_string()));
    let mut doc = serde_json::Map::new();
    doc.insert("name".to_string(), serde_json::Value::String(name.to_string()));
    doc.insert("private".to_string(), serde_json::Value::Bool(true));
    doc.insert("dependencies".to_string(), serde_json::Value::Object(deps));
    match serde_json::to_string_pretty(&serde_json::Value::Object(doc)) {
        Ok(text) => text,
        Err(e) => e.to_string(),
    }
}

/// The `package.json` written into an instance's `pkg/` before an install:
/// a private package `dsh-instance-pkg` that depends on the dsh package at
/// exactly `version`. The version reaches npm through this file, never
/// through its command line.
pub fn pkg_manifest(version: &str) -> (r: String)
    ensures
        r@ == manifest_json("dsh-instance-pkg"@, "@deepseek-ai/dsh"@, version@),
{
    let r = render_manifest("dsh-instance-pkg", DSH_PACKAGE, version);
    proof {
        reveal_strlit("@deepseek-ai/dsh");
        reveal_strlit("dsh-instance-pkg");
    }
    r
}

/// The arguments `node` runs npm with to install into `prefix`:
/// `<npm_cli> install --prefix <prefix> --registry <registry> --no-audit
/// --no-fund --loglevel warn`. The version to install is not among them: it
/// is read from the `package.json` under `prefix`.
pub fn npm_install_args(npm_cli: &DataPath, prefix: &DataPath, registry: &str) -> (r: Vec<CommandArg>)
    ensures
        arg_models(r@) == seq![
            ArgModel::Path(npm_cli@),
            ArgModel::Text("install"@),
            ArgModel::Text("--prefix"@),
            ArgModel::Path(prefix@),
            ArgModel::Text("--registry"@),
            ArgModel::Text(registry@),
            ArgModel::Text("--no-audit"@),
            ArgModel::Text("--no-fund"@),
            ArgModel::Text("--loglevel"@),
            ArgModel::Text("warn"@),
        ],
{
    let mut r: Vec<CommandArg> = Vec::new();
    r.push(path_arg(npm_cli));
    r.push(text_arg("install"));
    r.push(text_arg("--prefix"));
    r.push(path_arg(prefix));
    r.push(text_arg("--registry"));
    r.push(text_arg(registry));
    r.push(text_arg("--no-audit"));
    r.push(text_arg("--no-fund"));
    r.push(text_arg("--loglevel"));
    r.push(text_arg("warn"));
    assert(arg_models(r@) =~= seq![
        ArgModel::Path(npm_cli@),
        ArgModel::Text("install"@),
        ArgModel::Text("--prefix"@),
        ArgModel::Path(prefix@),
        ArgModel::Text("--registry"@),
        ArgModel::Text(registry@),
        ArgModel::Text("--no-audit"@),
        ArgModel::Text("--no-fund"@),
        ArgModel::Text("--loglevel"@),
        ArgModel::Text("warn"@),
    ]);
    r
}

/// The registry document of the dsh package: `<registry>/@deepseek-ai%2Fdsh`,
/// trailing `/` of the registry dropped.
pub fn package_url(registry: &str) -> (r: String)
    ensures
        r@ == without_trailing_slashes(registry@) + "/@deepseek-ai%2Fdsh"@,
{
    let v = chars_of(registry);
    let mut e = v.len();
    assert(v@.subrange(0, e as int) == v@);
    while e > 0 && v[e - 1] == '/'
        invariant
            e <= v@.len(),
            without_trailing_slashes(v@) == without_trailing_slashes(v@.subrange(0, e as int)),
        decreases e,
    {
        assert(v@.subrange(0, e as int).drop_last() == v@.subrange(0, e - 1));
        e -= 1;
    }
    let mut r = String::new();
    let mut i: usize = 0;
    while i < e
        invariant
            e <= v@.len(),
            i <= e,
            r@ == v@.subrange(0, i as int),
        decreases e - i,
    {
        push_char(&mut r, v[i]);
        assert(v@.subrange(0, i + 1) == v@.subrange(0, i as int).push(v@[i as int]));
        i += 1;
    }
    let tail = chars_of("/@deepseek-ai%2Fdsh");
    let ghost head = r@;
    let mut k: usize = 0;
    while k < tail.len()
        invariant
            k <= tail@.len(),
            r@ == head + tail@.subrange(0, k as int),
        decreases tail@.len() - k,
    {
        push_char(&mut r, tail[k]);
        assert(tail@.subrange(0, k + 1) == tail@.subrange(0, k as int).push(tail@[k as int]));
        k += 1;
    }
    assert(tail@.subrange(0, tail@.len() as int) == tail@);
    r
}

/// What `serde_json` makes of a `package.json` text: the `version` field
/// when the text is JSON (`None` inside when that field is missing or not a
/// string), or the parser's error message.
pub uninterp spec fn json_version_field(text: Seq<char>) -> Result<Option<Seq<char>>, Seq<char>>;

/// `serde_json::from_str::<serde_json::Value>`, reading the `version` field
/// of the parsed document. Claims only that the result is
/// `json_version_field` of the text.
#[verifier::external_body]
fn parse_version_field(text: &str) -> (r: Result<Option<String>, String>)
    ensures
        match (r, json_version_field(text@)) {
            (Ok(Some(v)), Ok(Some(w))) => v@ == w,
            (Ok(None), Ok(None)) => true,
            (Err(e), Err(m)) => e@ == m,
            _ => false,
        },
{
    match serde_json::from_str::<serde_json::Value>(text) {
        Ok(doc) => Ok(doc["version"].as_str().map(|s| s.to_string())),
        Err(e) => Err(e.to_string()),
    }
}

/// The version recorded in the `package.json` of an installed dsh: its
/// `version` field, `unknown` when it has none, or the JSON error.
pub fn installed_version(manifest: &str) -> (r: Result<String, String>)
    ensures
        match (r, json_version_field(manifest@)) {
            (Ok(v), Ok(Some(w))) => v@ == w,
            (Ok(v), Ok(None)) => v@ == "unknown"@,
            (Err(e), Err(m)) => e@ == m,
            _ => false,
        },
{
    match parse_version_field(manifest) {
        Ok(Some(v)) => Ok(v),
        Ok(None) => Ok(owned("unknown")),
        Err(e) => Err(e),
    }
}

/// What to report for one line of npm's output during an installation:
/// nothing for a blank line, else an `installing` progress carrying the line
/// without trailing `White_Space`.
pub fn progress_for_line(instance_id: &str, version: &str, line: &str) -> (r: Option<InstallProgress>)
    ensures
        trim_end(line@).len() == 0 ==> r is None,
        trim_end(line@).len() > 0 ==> (r matches Some(p) && p.instance_id@ == instance_id@ && p.version.deep_view()
            == Some(version@) && p.phase@ == "installing"@ && p.line.deep_view() == Some(trim_end(line@))),
{
    let v = chars_of(line);
    let b = trim_end_bound(&v);
    if b == 0 {
        return None;
    }
    Some(
        InstallProgress {
            instance_id: owned(instance_id),
            version: Some(owned(version)),
            phase: owned("installing"),
            line: Some(string_of(&v, 0, b)),
        },
    )
}

} // verus!
