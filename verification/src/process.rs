//! Interpreting the output of instance processes and deciding how to start
//! and stop them.

use vstd::prelude::*;
use crate::text::{
    chars_of, contains_text, find_first, find_space, first_index, first_space, has_text,
    is_space, lemma_first_index, lemma_first_space, occurs_at,
    lowercase, owned, push_char, string_of, to_lowercase, trim, trim_bounds, trim_end,
    trim_end_bound,
};
use crate::instance::{check_id, id_error, id_is_valid};
use crate::ports::{answered, find_free_port, scan_result};
use crate::state::{lookup, AppState};
use crate::layout::{arg_models, path_arg, text_arg, ArgModel, CommandArg, DataPath};
use crate::text::{decimal, decimal_text};

verus! {

/// Status of an instance as told to the user interface:
/// `starting`, `ready` or `stopped`.
pub struct InstanceStatus {
    pub instance_id: String,
    pub status: String,
    pub code: Option<i32>,
    pub url: Option<String>,
}

/// Where the Web UI address starts in a log line: the first `http://`, or
/// failing that the first `https://`.
pub open spec fn url_start(line: Seq<char>) -> Option<int> {
    match first_index(line, "http://"@) {
        Some(i) => Some(i),
        None => first_index(line, "https://"@),
    }
}

/// The Web UI address that dsh prints with its access token: on a line that
/// mentions `token=`, the text from the first `http://` (else `https://`) up
/// to the next `White_Space`.
pub open spec fn boot_url_of(line: Seq<char>) -> Option<Seq<char>> {
    if !contains_text(line, "token="@) {
        None
    } else {
        match url_start(line) {
            Some(s) => {
                let rest = line.subrange(s, line.len() as int);
                Some(rest.subrange(0, first_space(rest)))
            },
            None => None,
        }
    }
}

/// The Web UI address is read only from a line that mentions `token=` and
/// holds an `http://` or `https://`. It is then the part of the line that
/// starts at the first `http://` (at the first `https://` when there is no
/// `http://`) and runs up to the next `White_Space`, or to the end of the
/// line.
pub proof fn lemma_boot_url_rules(line: Seq<char>)
    ensures
        boot_url_of(line) is Some <==> contains_text(line, "token="@) && (contains_text(line, "http://"@)
            || contains_text(line, "https://"@)),
        boot_url_of(line) matches Some(u) ==> exists|s: int, e: int|
            #![trigger line.subrange(s, e)]
            {
                &&& 0 <= s <= e <= line.len()
                &&& u == line.subrange(s, e)
                &&& (occurs_at(line, "http://"@, s) && forall|j: int| 0 <= j < s ==> !occurs_at(line, "http://"@, j))
                    || (!contains_text(line, "http://"@) && occurs_at(line, "https://"@, s) && forall|j: int|
                    0 <= j < s ==> !occurs_at(line, "https://"@, j))
                &&& forall|k: int| s <= k < e ==> !is_space(#[trigger] line[k])
                &&& e == line.len() || is_space(line[e])
            },
{
    lemma_first_index(line, "http://"@);
    lemma_first_index(line, "https://"@);
    if let Some(s) = url_start(line) {
        if contains_text(line, "token="@) {
            let rest = line.subrange(s, line.len() as int);
            lemma_first_space(rest);
            let e = s + first_space(rest);
            assert(rest.subrange(0, first_space(rest)) =~= line.subrange(s, e));
            assert forall|k: int| s <= k < e implies !is_space(#[trigger] line[k]) by {
                assert(line[k] == rest[k - s]);
            }
            if e < line.len() {
                assert(line[e] == rest[e - s]);
            }
        }
    }
}

/// The address starting at `start`: up to the next `White_Space`.
fn url_at(v: &Vec<char>, start: usize) -> (r: String)
    requires
        start <= v@.len(),
    ensures
        r@ == v@.subrange(start as int, v@.len() as int).subrange(
            0,
            first_space(v@.subrange(start as int, v@.len() as int)),
        ),
{
    let n = find_space(v, start);
    assert(n <= v.len() - start);
    let ghost rest = v@.subrange(start as int, v@.len() as int);
    assert(v@.subrange(start as int, start + n) =~= rest.subrange(0, n as int));
    string_of(v, start, start + n)
}

/// Where the address starts in `v`, per `url_start`.
fn find_url_start(v: &Vec<char>) -> (r: Option<usize>)
    ensures
        match r {
            Some(i) => url_start(v@) == Some(i as int) && i <= v@.len(),
            None => url_start(v@) is None,
        },
{
    match find_first(v, &chars_of("http://")) {
        Some(i) => Some(i),
        None => find_first(v, &chars_of("https://")),
    }
}

/// Extracts from one log line the Web UI address with its access token.
pub fn extract_boot_url(line: &str) -> (r: Option<String>)
    ensures
        r.deep_view() == boot_url_of(line@),
{
    let v = chars_of(line);
    if !has_text(&v, &chars_of("token=")) {
        return None;
    }
    match find_url_start(&v) {
        Some(start) => Some(url_at(&v, start)),
        None => None,
    }
}

/// What to do with one line read from an instance's output.
pub struct LineOutcome {
    /// The line to record and show (the line without trailing
    /// `White_Space`), or `None` for a blank line.
    pub log_line: Option<String>,
    /// The Web UI address known after this line.
    pub boot_url: Option<String>,
    /// An address seen for the first time, to announce as `ready`.
    pub announce: Option<String>,
    /// Whether to open `announce` in the browser.
    pub open_browser: bool,
}

/// Model of a [`LineOutcome`].
pub struct LineModel {
    pub log_line: Option<Seq<char>>,
    pub boot_url: Option<Seq<char>>,
    pub announce: Option<Seq<char>>,
    pub open_browser: bool,
}

impl View for LineOutcome {
    type V = LineModel;

    open spec fn view(&self) -> LineModel {
        LineModel {
            log_line: self.log_line.deep_view(),
            boot_url: self.boot_url.deep_view(),
            announce: self.announce.deep_view(),
            open_browser: self.open_browser,
        }
    }
}

/// How a line of output is handled, given the address known so far and
/// whether addresses are opened in the browser.
pub open spec fn line_outcome(known: Option<Seq<char>>, line: Seq<char>, auto_open: bool) -> LineModel {
    let t = trim_end(line);
    if t.len() == 0 {
        LineModel { log_line: None, boot_url: known, announce: None, open_browser: false }
    } else {
        match boot_url_of(t) {
            Some(u) => LineModel {
                log_line: Some(t),
                boot_url: Some(u),
                announce: if known != Some(u) {
                    Some(u)
                } else {
                    None
                },
                open_browser: known != Some(u) && auto_open,
            },
            None => LineModel { log_line: Some(t), boot_url: known, announce: None, open_browser: false },
        }
    }
}

/// Decides what to do with one line of an instance's stdout or stderr:
/// blank lines are skipped; a line carrying the Web UI address updates the
/// known address, and a new address is announced (and opened in the browser
/// when `auto_open` is set); every other line is just logged.
pub fn on_output_line(known: Option<String>, line: &str, auto_open: bool) -> (r: LineOutcome)
    ensures
        r@ == line_outcome(known.deep_view(), line@, auto_open),
{
    let v = chars_of(line);
    let b = trim_end_bound(&v);
    if b == 0 {
        return LineOutcome { log_line: None, boot_url: known, announce: None, open_browser: false };
    }
    let t = string_of(&v, 0, b);
    match extract_boot_url(t.as_str()) {
        Some(u) => {
            let same = match &known {
                Some(k) => *k == u,
                None => false,
            };
            if same {
                LineOutcome { log_line: Some(t), boot_url: Some(u), announce: None, open_browser: false }
            } else {
                let a = u.clone();
                LineOutcome { log_line: Some(t), boot_url: Some(u), announce: Some(a), open_browser: auto_open }
            }
        },
        None => LineOutcome { log_line: Some(t), boot_url: known, announce: None, open_browser: false },
    }
}

proof fn lemma_all_space_trims_to_empty(line: Seq<char>)
    requires
        forall|i: int| 0 <= i < line.len() ==> is_space(#[trigger] line[i]),
    ensures
        trim_end(line).len() == 0,
    decreases line.len(),
{
    if line.len() > 0 {
        assert(is_space(line[line.len() - 1]));
        lemma_all_space_trims_to_empty(line.drop_last());
    }
}

/// A line made only of `White_Space` (an empty one too) is skipped: nothing
/// is logged, announced or opened, and the known address stays as it was.
pub proof fn lemma_blank_line_skipped(known: Option<Seq<char>>, line: Seq<char>, auto_open: bool)
    requires
        forall|i: int| 0 <= i < line.len() ==> is_space(#[trigger] line[i]),
    ensures
        line_outcome(known, line, auto_open).log_line is None,
        line_outcome(known, line, auto_open).boot_url == known,
        line_outcome(known, line, auto_open).announce is None,
        !line_outcome(known, line, auto_open).open_browser,
{
    lemma_all_space_trims_to_empty(line);
}

/// A line that carries no Web UI address keeps the known address and
/// announces nothing; unless it is blank it is logged without its trailing
/// `White_Space`.
pub proof fn lemma_plain_line_keeps_address(known: Option<Seq<char>>, line: Seq<char>, auto_open: bool)
    requires
        boot_url_of(trim_end(line)) is None,
    ensures
        line_outcome(known, line, auto_open).boot_url == known,
        line_outcome(known, line, auto_open).announce is None,
        !line_outcome(known, line, auto_open).open_browser,
        trim_end(line).len() > 0 ==> line_outcome(known, line, auto_open).log_line == Some(trim_end(line)),
{
}

/// A line that carries the address `u` makes `u` the known address and is
/// logged; `u` is announced exactly when it differs from the address known
/// before, and opened in the browser exactly when it is announced and
/// `auto_open` is set.
pub proof fn lemma_address_line(known: Option<Seq<char>>, line: Seq<char>, auto_open: bool, u: Seq<char>)
    requires
        boot_url_of(trim_end(line)) == Some(u),
    ensures
        line_outcome(known, line, auto_open).boot_url == Some(u),
        line_outcome(known, line, auto_open).log_line == Some(trim_end(line)),
        line_outcome(known, line, auto_open).announce is Some <==> known != Some(u),
        line_outcome(known, line, auto_open).announce is Some ==> line_outcome(known, line, auto_open).announce
            == Some(u),
        line_outcome(known, line, auto_open).open_browser <==> (known != Some(u) && auto_open),
{
    reveal_strlit("token=");
    let t = trim_end(line);
    if t.len() == 0 {
        assert(!contains_text(t, "token="@));
    }
}

/// Handling the same line twice in a row: the second time nothing is
/// announced or opened, the known address stays, and the line is logged
/// the same way again.
pub proof fn lemma_repeated_line_is_quiet(known: Option<Seq<char>>, line: Seq<char>, auto_open: bool)
    ensures
        ({
            let first = line_outcome(known, line, auto_open);
            let second = line_outcome(first.boot_url, line, auto_open);
            &&& second.boot_url == first.boot_url
            &&& second.announce is None
            &&& !second.open_browser
            &&& second.log_line == first.log_line
        }),
{
}

/// `s` with every `\` turned into `/`.
pub open spec fn forward_slashes(s: Seq<char>) -> Seq<char> {
    s.map_values(|c: char| if c == '\\' { '/' } else { c })
}

/// The environment file handed to `node --env-file`: one line that points
/// `DSH_HOME` at the instance's home directory, written with forward slashes.
pub fn boot_env_content(home: &str) -> (r: String)
    ensures
        r@ == "DSH_HOME="@ + forward_slashes(home@) + "\n"@,
        forall|i: int| 0 <= i < r@.len() ==> #[trigger] r@[i] != '\\',
{
    let v = chars_of(home);
    let mut r = owned("DSH_HOME=");
    let ghost head = r@;
    let mut i: usize = 0;
    while i < v.len()
        invariant
            i <= v@.len(),
            v@ == home@,
            r@ == head + forward_slashes(v@.take(i as int)),
        decreases v@.len() - i,
    {
        let c = v[i];
        push_char(&mut r, if c == '\\' { '/' } else { c });
        assert(forward_slashes(v@.take(i + 1)) =~= forward_slashes(v@.take(i as int)).push(
            if c == '\\' { '/' } else { c },
        ));
        i += 1;
    }
    assert(v@.take(v@.len() as int) =~= v@);
    let ghost body = r@;
    push_char(&mut r, '\n');
    proof {
        reveal_strlit("\n");
        reveal_strlit("DSH_HOME=");
        assert(r@ =~= body + "\n"@);
        let f = forward_slashes(home@);
        assert forall|i: int| 0 <= i < r@.len() implies #[trigger] r@[i] != '\\' by {
            if i >= 9 && i < 9 + f.len() {
                assert(r@[i] == f[i - 9]);
            }
        }
    }
    r
}

/// What the outcome of `taskkill` means. A failure whose message says the
/// process was not found counts as success: the process is already gone.
pub open spec fn kill_outcome(success: bool, stderr: Seq<char>) -> Result<(), Seq<char>> {
    if success || contains_text(stderr, "没有找到"@) || contains_text(lowercase(stderr), "not found"@) {
        Ok(())
    } else {
        Err("taskkill 失败: "@ + trim(stderr))
    }
}

/// Interprets the exit status and error output of `taskkill`.
pub fn taskkill_result(success: bool, stderr: &str) -> (r: Result<(), String>)
    ensures
        match (r, kill_outcome(success, stderr@)) {
            (Ok(()), Ok(())) => true,
            (Err(e), Err(m)) => e@ == m,
            _ => false,
        },
{
    if success {
        return Ok(());
    }
    let v = chars_of(stderr);
    if has_text(&v, &chars_of("没有找到")) {
        return Ok(());
    }
    let lower = to_lowercase(stderr);
    if has_text(&chars_of(lower.as_str()), &chars_of("not found")) {
        return Ok(());
    }
    let (a, b) = trim_bounds(&v);
    let mut msg = owned("taskkill 失败: ");
    let ghost head = msg@;
    let mut i = a;
    while i < b
        invariant
            a <= i <= b <= v@.len(),
            msg@ == head + v@.subrange(a as int, i as int),
        decreases b - i,
    {
        push_char(&mut msg, v[i]);
        assert(v@.subrange(a as int, i + 1) =~= v@.subrange(a as int, i as int).push(v@[i as int]));
        i += 1;
    }
    Err(msg)
}

/// The arguments `node` is started with for an instance:
/// `--env-file <env_file> <entry> web --port <port> --no-open`.
pub fn launch_args(env_file: &DataPath, entry: &DataPath, port: u16) -> (r: Vec<CommandArg>)
    ensures
        arg_models(r@) == seq![
            ArgModel::Text("--env-file"@),
            ArgModel::Path(env_file@),
            ArgModel::Path(entry@),
            ArgModel::Text("web"@),
            ArgModel::Text("--port"@),
            ArgModel::Text(decimal(port as nat)),
            ArgModel::Text("--no-open"@),
        ],
{
    let mut r: Vec<CommandArg> = Vec::new();
    r.push(text_arg("--env-file"));
    r.push(path_arg(env_file));
    r.push(path_arg(entry));
    r.push(text_arg("web"));
    r.push(text_arg("--port"));
    r.push(CommandArg::Text(decimal_text(port)));
    r.push(text_arg("--no-open"));
    assert(arg_models(r@) =~= seq![
        ArgModel::Text("--env-file"@),
        ArgModel::Path(env_file@),
        ArgModel::Path(entry@),
        ArgModel::Text("web"@),
        ArgModel::Text("--port"@),
        ArgModel::Text(decimal(port as nat)),
        ArgModel::Text("--no-open"@),
    ]);
    r
}

/// Ports scanned after a busy preferred port when starting an instance.
pub const START_SCAN_SPAN: u16 = 100;

/// The port an instance is started on: its preferred port when `is_free`
/// reports it free, else the first free one of the 100 after it. `None` when
/// the preferred port is 65535 and busy, so that no port comes after it.
pub fn launch_port<F: Fn(u16) -> bool>(preferred: u16, is_free: &F) -> (r: Option<u16>)
    requires
        forall|p: u16| call_requires(*is_free, (p,)),
    ensures
        r is None ==> preferred == u16::MAX && answered(*is_free, preferred, false),
        r matches Some(port) ==> {
            ||| (port == preferred && answered(*is_free, preferred, true))
            ||| (preferred < u16::MAX && answered(*is_free, preferred, false) && scan_result(
                *is_free,
                (preferred + 1) as u16,
                START_SCAN_SPAN,
                port,
            ))
        },
{
    if is_free(preferred) {
        Some(preferred)
    } else if preferred == u16::MAX {
        None
    } else {
        Some(find_free_port(preferred + 1, START_SCAN_SPAN, is_free))
    }
}

/// Checks before starting `id`: it must not run already, and its id must be
/// valid.
pub fn check_can_start(state: &AppState, id: &str) -> (r: Result<(), String>)
    ensures
        lookup(state@.children, id@) is Some ==> (r matches Err(e) && e@ == "实例已在运行"@),
        lookup(state@.children, id@) is None ==> (r is Ok <==> id_is_valid(id@)),
        lookup(state@.children, id@) is None ==> (r matches Err(e) ==> e@ == id_error(id@)),
{
    if state.is_running(id) {
        return Err(owned("实例已在运行"));
    }
    check_id(id)
}

/// Checks before deleting `id`: it must not run, and its id must be valid.
pub fn check_deletable(state: &AppState, id: &str) -> (r: Result<(), String>)
    ensures
        lookup(state@.children, id@) is Some ==> (r matches Err(e) && e@ == "实例正在运行，请先停止再删除"@),
        lookup(state@.children, id@) is None ==> (r is Ok <==> id_is_valid(id@)),
        lookup(state@.children, id@) is None ==> (r matches Err(e) ==> e@ == id_error(id@)),
{
    if state.is_running(id) {
        return Err(owned("实例正在运行，请先停止再删除"));
    }
    check_id(id)
}

/// The process to kill to stop `id`: its id must be valid and it must run.
pub fn stop_instance(state: &AppState, id: &str) -> (r: Result<u32, String>)
    ensures
        !id_is_valid(id@) ==> (r matches Err(e) && e@ == id_error(id@)),
        id_is_valid(id@) && lookup(state@.children, id@) is None ==> (r matches Err(e) && e@
            == "实例未在运行"@),
        id_is_valid(id@) && lookup(state@.children, id@) is Some ==> r == Ok::<u32, String>(
            lookup(state@.children, id@)->0.pid,
        ),
{
    match check_id(id) {
        Ok(()) => {},
        Err(e) => {
            return Err(e);
        },
    }
    match state.child_pid(id) {
        Some(pid) => Ok(pid),
        None => Err(owned("实例未在运行")),
    }
}

} // verus!
