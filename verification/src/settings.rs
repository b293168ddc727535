//! Global launcher settings and what they resolve to.

use vstd::prelude::*;
use crate::layout::DataPath;
use crate::text::{chars_of, lowercase, owned, same_text, string_of, to_lowercase, trim, trim_bounds};

verus! {

/// Registry used when none is configured.
pub open spec fn default_registry() -> Seq<char> {
    "https://registry.npmmirror.com"@
}

/// Launcher settings, kept in `dsh-launcher.json` beside the executable.
pub struct Settings {
    /// Root of the instance data; `None` means `dsh-data` beside the executable.
    pub data_root: Option<String>,
    /// npm registry; `None` means the npmmirror registry.
    pub registry: Option<String>,
    pub theme: String,
    pub auto_open_browser: bool,
}

/// Mathematical model of [`Settings`].
pub struct SettingsModel {
    pub data_root: Option<Seq<char>>,
    pub registry: Option<Seq<char>>,
    pub theme: Seq<char>,
    pub auto_open_browser: bool,
}

impl View for Settings {
    type V = SettingsModel;

    open spec fn view(&self) -> SettingsModel {
        SettingsModel {
            data_root: self.data_root.deep_view(),
            registry: self.registry.deep_view(),
            theme: self.theme@,
            auto_open_browser: self.auto_open_browser,
        }
    }
}

impl Default for Settings {
    /// No data root, no registry, dark theme, browser opened automatically.
    fn default() -> (r: Self)
        ensures
            r@ == (SettingsModel {
                data_root: None,
                registry: None,
                theme: "dark"@,
                auto_open_browser: true,
            }),
    {
        Settings { data_root: None, registry: None, theme: owned("dark"), auto_open_browser: true }
    }
}

/// `s` without its trailing `/`.
pub open spec fn strip_slashes_end(s: Seq<char>) -> Seq<char>
    decreases s.len(),
{
    if s.len() > 0 && s.last() == '/' {
        strip_slashes_end(s.drop_last())
    } else {
        s
    }
}

/// The registry a [`Settings`] resolves to: the configured one without
/// surrounding `White_Space` and trailing `/`, or the default when none is
/// configured or it is blank.
pub open spec fn registry_of(s: SettingsModel) -> Seq<char> {
    match s.registry {
        Some(r) => if trim(r).len() > 0 {
            strip_slashes_end(trim(r))
        } else {
            default_registry()
        },
        None => default_registry(),
    }
}

/// `strip_slashes_end` drops exactly the trailing `/`: it keeps the part of
/// `s` before `j`, which does not end with `/`, and from `j` on `s` holds
/// only `/`.
pub proof fn lemma_strip_slashes_end_shape(s: Seq<char>) -> (j: int)
    ensures
        0 <= j <= s.len(),
        strip_slashes_end(s) == s.subrange(0, j),
        forall|k: int| j <= k < s.len() ==> #[trigger] s[k] == '/',
        j > 0 ==> s[j - 1] != '/',
    decreases s.len(),
{
    if s.len() > 0 && s.last() == '/' {
        let j1 = lemma_strip_slashes_end_shape(s.drop_last());
        assert(s.drop_last().subrange(0, j1) == s.subrange(0, j1));
        assert forall|k: int| j1 <= k < s.len() implies #[trigger] s[k] == '/' by {
            if k < s.len() - 1 {
                assert(s[k] == s.drop_last()[k]);
            }
        }
        j1
    } else {
        assert(s.subrange(0, s.len() as int) == s);
        s.len() as int
    }
}

/// The resolved registry never ends with `/`. A configured registry that is
/// not blank is used as it was written, once surrounding `White_Space` and
/// trailing `/` are dropped; otherwise the npmmirror registry is used.
pub proof fn lemma_registry_resolution(s: SettingsModel)
    ensures
        registry_of(s).len() > 0 ==> registry_of(s).last() != '/',
        (s.registry matches Some(r) && trim(r).len() > 0) ==> exists|j: int|
            0 <= j <= trim(s.registry->0).len() && registry_of(s) == #[trigger] trim(s.registry->0).subrange(0, j)
                && forall|k: int| j <= k < trim(s.registry->0).len() ==> trim(s.registry->0)[k] == '/',
        !(s.registry matches Some(r) && trim(r).len() > 0) ==> registry_of(s) == "https://registry.npmmirror.com"@,
{
    reveal_strlit("https://registry.npmmirror.com");
    match s.registry {
        Some(r) => {
            if trim(r).len() > 0 {
                let j = lemma_strip_slashes_end_shape(trim(r));
                assert(trim(s.registry->0).subrange(0, j) == registry_of(s));
            }
        },
        None => {},
    }
}

/// Where the settings file lives: `<exe_dir>/dsh-launcher.json`.
pub fn settings_path(exe_dir: &str) -> (r: DataPath)
    ensures
        r@ == DataPath::spec_from_root(exe_dir@).join("dsh-launcher.json"@),
{
    DataPath::from_root(exe_dir).join("dsh-launcher.json")
}

impl Settings {
    /// The data root: the configured one unless it is missing or blank, in
    /// which case `dsh-data` beside the executable.
    pub fn resolve_data_root(&self, exe_dir: &str) -> (r: DataPath)
        ensures
            (self@.data_root matches Some(d) && trim(d).len() > 0) ==> r@ == DataPath::spec_from_root(
                self@.data_root->0,
            ),
            !(self@.data_root matches Some(d) && trim(d).len() > 0) ==> r@ == DataPath::spec_from_root(
                exe_dir@,
            ).join("dsh-data"@),
    {
        match &self.data_root {
            Some(d) => {
                let v = chars_of(d.as_str());
                let (a, b) = trim_bounds(&v);
                if a < b {
                    return DataPath::from_root(d.as_str());
                }
            },
            None => {},
        }
        DataPath::from_root(exe_dir).join("dsh-data")
    }

    /// The npm registry to use, see [`registry_of`].
    pub fn registry_url(&self) -> (r: String)
        ensures
            r@ == registry_of(self@),
    {
        match &self.registry {
            Some(reg) => {
                let v = chars_of(reg.as_str());
                let (a, b) = trim_bounds(&v);
                if a < b {
                    let mut e = b;
                    assert(v@.subrange(a as int, e as int) == trim(v@));
                    while e > a && v[e - 1] == '/'
                        invariant
                            a <= e <= b <= v@.len(),
                            strip_slashes_end(trim(v@)) == strip_slashes_end(
                                v@.subrange(a as int, e as int),
                            ),
                        decreases e - a,
                    {
                        assert(v@.subrange(a as int, e as int).drop_last() == v@.subrange(
                            a as int,
                            e - 1,
                        ));
                        e -= 1;
                    }
                    return string_of(&v, a, e);
                }
            },
            None => {},
        }
        owned("https://registry.npmmirror.com")
    }
}

/// Facts about a Node.js installation shown in the settings page.
pub struct NodeInfo {
    pub path: String,
    pub version: String,
}

/// Whether a candidate file is the Node.js program: its name, lower-cased,
/// is `node.exe` or `node`.
pub fn is_node_program(file_name: &str) -> (r: bool)
    ensures
        r == (lowercase(file_name@) == "node.exe"@ || lowercase(file_name@) == "node"@),
{
    let lower = to_lowercase(file_name);
    same_text(lower.as_str(), "node.exe") || same_text(lower.as_str(), "node")
}

/// The version shown for Node.js: the output of `node --version` without
/// surrounding `White_Space`, or `unknown` when that is empty.
pub fn node_version_label(output: &str) -> (r: String)
    ensures
        trim(output@).len() > 0 ==> r@ == trim(output@),
        trim(output@).len() == 0 ==> r@ == "unknown"@,
{
    let v = chars_of(output);
    let (a, b) = trim_bounds(&v);
    if a < b {
        string_of(&v, a, b)
    } else {
        owned("unknown")
    }
}

} // verus!
