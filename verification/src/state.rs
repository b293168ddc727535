//! Run state of the launcher: which instances have a live process, and the
//! bounded log kept for each instance so that its log page can be replayed.

use vstd::prelude::*;
use std::collections::VecDeque;
use crate::layout::texts;
use crate::text::{owned, same_text};
use crate::instance::copy_opt;

verus! {

/// Most log lines kept per instance.
pub const LOG_BUFFER_CAP: usize = 4000;

/// A running instance process. The process itself is owned by the task that
/// waits for it; stopping only needs the pid.
pub struct ChildHandle {
    pub pid: u32,
    pub port: u16,
    pub started_at: i64,
    pub boot_url: Option<String>,
}

/// What the user interface is told about a running instance.
pub struct RunningInfo {
    pub instance_id: String,
    pub pid: u32,
    pub port: u16,
    pub started_at: i64,
    pub boot_url: Option<String>,
}

/// Mathematical model of a [`ChildHandle`].
pub struct ChildModel {
    pub pid: u32,
    pub port: u16,
    pub started_at: i64,
    pub boot_url: Option<Seq<char>>,
}

impl View for ChildHandle {
    type V = ChildModel;

    open spec fn view(&self) -> ChildModel {
        ChildModel {
            pid: self.pid,
            port: self.port,
            started_at: self.started_at,
            boot_url: self.boot_url.deep_view(),
        }
    }
}

/// Mathematical model of a [`RunningInfo`].
pub struct RunningModel {
    pub instance_id: Seq<char>,
    pub pid: u32,
    pub port: u16,
    pub started_at: i64,
    pub boot_url: Option<Seq<char>>,
}

impl View for RunningInfo {
    type V = RunningModel;

    open spec fn view(&self) -> RunningModel {
        RunningModel {
            instance_id: self.instance_id@,
            pid: self.pid,
            port: self.port,
            started_at: self.started_at,
            boot_url: self.boot_url.deep_view(),
        }
    }
}

/// Mathematical model of the run state: the running instances in the order
/// they were registered, and the kept log lines of each instance.
pub struct StateModel {
    pub children: Seq<(Seq<char>, ChildModel)>,
    pub logs: Seq<(Seq<char>, Seq<Seq<char>>)>,
}

/// The entry for `key` in an association list, if there is one.
pub open spec fn lookup<V>(entries: Seq<(Seq<char>, V)>, key: Seq<char>) -> Option<V> {
    if exists|i: int| 0 <= i < entries.len() && entries[i].0 == key {
        Some(entries[choose|i: int| 0 <= i < entries.len() && entries[i].0 == key].1)
    } else {
        None
    }
}

/// No key occurs twice in an association list.
pub open spec fn unique_keys<V>(entries: Seq<(Seq<char>, V)>) -> bool {
    forall|i: int, j: int|
        0 <= i < entries.len() && 0 <= j < entries.len() && i != j ==> entries[i].0 != entries[j].0
}

/// The association list with the entry for `key` set to `value`: replaced in
/// place when present, appended otherwise.
pub open spec fn assign<V>(entries: Seq<(Seq<char>, V)>, key: Seq<char>, value: V) -> Seq<(Seq<char>, V)> {
    if exists|i: int| 0 <= i < entries.len() && entries[i].0 == key {
        entries.update(choose|i: int| 0 <= i < entries.len() && entries[i].0 == key, (key, value))
    } else {
        entries.push((key, value))
    }
}

/// The association list without the entry for `key`.
pub open spec fn unassign<V>(entries: Seq<(Seq<char>, V)>, key: Seq<char>) -> Seq<(Seq<char>, V)> {
    entries.filter(|e: (Seq<char>, V)| e.0 != key)
}

/// The last `LOG_BUFFER_CAP` lines of `lines` (all of them when fewer).
pub open spec fn keep_latest(lines: Seq<Seq<char>>) -> Seq<Seq<char>> {
    if lines.len() > LOG_BUFFER_CAP {
        lines.subrange(lines.len() - LOG_BUFFER_CAP, lines.len() as int)
    } else {
        lines
    }
}

/// The kept log lines of `id`; none for an instance that never logged.
pub open spec fn log_of(s: StateModel, id: Seq<char>) -> Seq<Seq<char>> {
    match lookup(s.logs, id) {
        Some(l) => l,
        None => Seq::empty(),
    }
}

/// With unique keys, `lookup` finds the entry at the index holding the key.
pub proof fn lemma_lookup_at<V>(entries: Seq<(Seq<char>, V)>, i: int)
    requires
        unique_keys(entries),
        0 <= i < entries.len(),
    ensures
        lookup(entries, entries[i].0) == Some(entries[i].1),
{
    let k = entries[i].0;
    let j = choose|j: int| 0 <= j < entries.len() && entries[j].0 == k;
    assert(j == i);
}

/// `assign` and `lookup` agree, and `assign` keeps keys unique.
pub proof fn lemma_assign<V>(entries: Seq<(Seq<char>, V)>, key: Seq<char>, value: V)
    requires
        unique_keys(entries),
    ensures
        unique_keys(assign(entries, key, value)),
        lookup(assign(entries, key, value), key) == Some(value),
        forall|k: Seq<char>| k != key ==> lookup(assign(entries, key, value), k) == lookup(entries, k),
{
    let e2 = assign(entries, key, value);
    if exists|i: int| 0 <= i < entries.len() && entries[i].0 == key {
        let i = choose|i: int| 0 <= i < entries.len() && entries[i].0 == key;
        assert(e2 == entries.update(i, (key, value)));
        assert(unique_keys(e2));
        lemma_lookup_at(e2, i);
        assert forall|k: Seq<char>| k != key implies lookup(e2, k) == lookup(entries, k) by {
            if exists|j: int| 0 <= j < entries.len() && entries[j].0 == k {
                let j = choose|j: int| 0 <= j < entries.len() && entries[j].0 == k;
                lemma_lookup_at(entries, j);
                assert(e2[j] == entries[j]);
                lemma_lookup_at(e2, j);
            } else {
                assert(!exists|j: int| 0 <= j < e2.len() && e2[j].0 == k) by {
                    assert forall|j: int| 0 <= j < e2.len() implies e2[j].0 != k by {
                        if j != i {
                            assert(e2[j] == entries[j]);
                        }
                    }
                }
            }
        }
    } else {
        assert(e2 == entries.push((key, value)));
        assert(unique_keys(e2));
        lemma_lookup_at(e2, entries.len() as int);
        assert forall|k: Seq<char>| k != key implies lookup(e2, k) == lookup(entries, k) by {
            if exists|j: int| 0 <= j < entries.len() && entries[j].0 == k {
                let j = choose|j: int| 0 <= j < entries.len() && entries[j].0 == k;
                lemma_lookup_at(entries, j);
                assert(e2[j] == entries[j]);
                lemma_lookup_at(e2, j);
            } else {
                assert(!exists|j: int| 0 <= j < e2.len() && e2[j].0 == k) by {
                    assert forall|j: int| 0 <= j < e2.len() implies e2[j].0 != k by {
                        if j < entries.len() {
                            assert(e2[j] == entries[j]);
                        }
                    }
                }
            }
        }
    }
}

/// The run state of the launcher.
pub struct AppState {
    children: Vec<(String, ChildHandle)>,
    logs: Vec<(String, VecDeque<String>)>,
}

/// Models of a list of keyed children.
pub open spec fn child_models(v: Seq<(String, ChildHandle)>) -> Seq<(Seq<char>, ChildModel)> {
    v.map_values(|e: (String, ChildHandle)| (e.0@, e.1@))
}

/// Models of a list of keyed log buffers.
pub open spec fn log_models(v: Seq<(String, VecDeque<String>)>) -> Seq<(Seq<char>, Seq<Seq<char>>)> {
    v.map_values(|e: (String, VecDeque<String>)| (e.0@, texts(e.1@)))
}

impl View for AppState {
    type V = StateModel;

    closed spec fn view(&self) -> StateModel {
        StateModel { children: child_models(self.children@), logs: log_models(self.logs@) }
    }
}

/// Index of the entry keyed `id` in a list of keyed values.
fn position_of<V>(entries: &Vec<(String, V)>, id: &str) -> (r: Option<usize>)
    ensures
        match r {
            Some(i) => i < entries@.len() && entries@[i as int].0@ == id@,
            None => forall|i: int| 0 <= i < entries@.len() ==> entries@[i].0@ != id@,
        },
{
    let mut i: usize = 0;
    while i < entries.len()
        invariant
            i <= entries@.len(),
            forall|k: int| 0 <= k < i ==> entries@[k].0@ != id@,
        decreases entries@.len() - i,
    {
        if same_text(entries[i].0.as_str(), id) {
            return Some(i);
        }
        i += 1;
    }
    None
}

impl AppState {
    #[verifier::type_invariant]
    closed spec fn well_formed(self) -> bool {
        &&& unique_keys(child_models(self.children@))
        &&& unique_keys(log_models(self.logs@))
        &&& forall|i: int| 0 <= i < self.logs@.len() ==> (#[trigger] self.logs@[i]).1@.len() <= LOG_BUFFER_CAP
    }

    /// No instance running, no logs.
    pub fn new() -> (r: AppState)
        ensures
            r@.children == Seq::<(Seq<char>, ChildModel)>::empty(),
            r@.logs == Seq::<(Seq<char>, Seq<Seq<char>>)>::empty(),
    {
        let r = AppState { children: Vec::new(), logs: Vec::new() };
        assert(child_models(r.children@) =~= Seq::empty());
        assert(log_models(r.logs@) =~= Seq::empty());
        r
    }

    /// Whether `id` has a live process.
    pub fn is_running(&self, id: &str) -> (r: bool)
        ensures
            r == lookup(self@.children, id@) is Some,
    {
        proof {
            use_type_invariant(self);
        }
        match position_of(&self.children, id) {
            Some(i) => {
                proof {
                    lemma_lookup_at(child_models(self.children@), i as int);
                }
                true
            },
            None => {
                assert(!exists|i: int|
                    0 <= i < self@.children.len() && self@.children[i].0 == id@) by {
                    assert forall|i: int| 0 <= i < self@.children.len() implies self@.children[i].0
                        != id@ by {
                        assert(self@.children[i].0 == self.children@[i].0@);
                    }
                }
                false
            },
        }
    }

    /// The pid of the process of `id`, if it runs.
    pub fn child_pid(&self, id: &str) -> (r: Option<u32>)
        ensures
            r == (match lookup(self@.children, id@) {
                Some(c) => Some(c.pid),
                None => None,
            }),
    {
        proof {
            use_type_invariant(self);
        }
        match position_of(&self.children, id) {
            Some(i) => {
                proof {
                    lemma_lookup_at(child_models(self.children@), i as int);
                }
                Some(self.children[i].1.pid)
            },
            None => {
                assert(!exists|i: int|
                    0 <= i < self@.children.len() && self@.children[i].0 == id@) by {
                    assert forall|i: int| 0 <= i < self@.children.len() implies self@.children[i].0
                        != id@ by {
                        assert(self@.children[i].0 == self.children@[i].0@);
                    }
                }
                None
            },
        }
    }

    /// Records the process of `id`, replacing any earlier record of it.
    pub fn insert_child(&mut self, id: String, handle: ChildHandle)
        ensures
            final(self)@.children == assign(old(self)@.children, id@, handle@),
            final(self)@.logs == old(self)@.logs,
    {
        proof {
            use_type_invariant(&*self);
        }
        let ghost old_c = child_models(self.children@);
        let ghost key = id@;
        let ghost hv = handle@;
        let mut children: Vec<(String, ChildHandle)> = Vec::new();
        std::mem::swap(&mut children, &mut self.children);
        match position_of(&children, id.as_str()) {
            Some(i) => {
                children.set(i, (id, handle));
                proof {
                    assert(old_c[i as int].0 == key);
                    let j = choose|j: int| 0 <= j < old_c.len() && old_c[j].0 == key;
                    assert(j == i as int);
                    assert(child_models(children@) =~= old_c.update(i as int, (key, hv)));
                }
            },
            None => {
                children.push((id, handle));
                proof {
                    assert(!exists|j: int| 0 <= j < old_c.len() && old_c[j].0 == key) by {
                        assert forall|j: int| 0 <= j < old_c.len() implies old_c[j].0 != key by {
                            assert(old_c[j].0 == old(self).children@[j].0@);
                        }
                    }
                    assert(child_models(children@) =~= old_c.push((key, hv)));
                }
            },
        }
        proof {
            lemma_assign(old_c, key, hv);
        }
        self.children = children;
    }

    /// Drops the record of `id` when it is the process `pid`; a newer process
    /// of the same instance is left alone.
    pub fn remove_child_if_pid(&mut self, id: &str, pid: u32)
        ensures
            (lookup(old(self)@.children, id@) matches Some(c) && c.pid == pid) ==> final(self)@.children
                == unassign(old(self)@.children, id@),
            !(lookup(old(self)@.children, id@) matches Some(c) && c.pid == pid) ==> final(self)@.children
                == old(self)@.children,
            final(self)@.logs == old(self)@.logs,
    {
        proof {
            use_type_invariant(&*self);
        }
        let ghost old_c = child_models(self.children@);
        match position_of(&self.children, id) {
            Some(i) => {
                proof {
                    lemma_lookup_at(old_c, i as int);
                }
                if self.children[i].1.pid == pid {
                    let mut children: Vec<(String, ChildHandle)> = Vec::new();
                    std::mem::swap(&mut children, &mut self.children);
                    let _gone = children.remove(i);
                    proof {
                        assert(child_models(children@) =~= old_c.remove(i as int));
                        lemma_unassign_unique(old_c, i as int);
                        lemma_remove_unique(old_c, i as int);
                    }
                    self.children = children;
                }
            },
            None => {
                assert(!exists|j: int| 0 <= j < old_c.len() && old_c[j].0 == id@) by {
                    assert forall|j: int| 0 <= j < old_c.len() implies old_c[j].0 != id@ by {
                        assert(old_c[j].0 == self.children@[j].0@);
                    }
                }
            },
        }
    }

    /// Appends `line` to the log of `id`, dropping the oldest line when the
    /// log already holds `LOG_BUFFER_CAP` lines.
    pub fn push_log(&mut self, id: &str, line: &str)
        ensures
            final(self)@.logs == assign(
                old(self)@.logs,
                id@,
                keep_latest(log_of(old(self)@, id@).push(line@)),
            ),
            final(self)@.children == old(self)@.children,
            log_of(final(self)@, id@) == keep_latest(log_of(old(self)@, id@).push(line@)),
            log_of(final(self)@, id@).len() <= LOG_BUFFER_CAP,
            forall|k: Seq<char>| k != id@ ==> #[trigger] log_of(final(self)@, k) == log_of(old(self)@, k),
    {
        proof {
            use_type_invariant(&*self);
        }
        let ghost old_l = log_models(self.logs@);
        let ghost key = id@;
        match position_of(&self.logs, id) {
            Some(i) => {
                proof {
                    lemma_lookup_at(old_l, i as int);
                }
                let ghost prev = texts(self.logs@[i as int].1@);
                let mut logs: Vec<(String, VecDeque<String>)> = Vec::new();
                std::mem::swap(&mut logs, &mut self.logs);
                let ghost before = logs@;
                let (k, mut buf) = logs.remove(i);
                if buf.len() >= LOG_BUFFER_CAP {
                    buf.pop_front();
                }
                buf.push_back(owned(line));
                assert(texts(buf@) =~= keep_latest(prev.push(line@)));
                logs.insert(i, (k, buf));
                proof {
                    assert(log_models(logs@) =~= old_l.update(i as int, (key, keep_latest(prev.push(line@)))));
                    let j = choose|j: int| 0 <= j < old_l.len() && old_l[j].0 == key;
                    assert(j == i as int);
                    lemma_assign(old_l, key, keep_latest(prev.push(line@)));
                    assert forall|m: int| 0 <= m < logs@.len() implies (#[trigger] logs@[m]).1@.len() <= LOG_BUFFER_CAP by {
                        if m != i {
                            assert(logs@[m] == before[m]);
                        }
                    }
                }
                self.logs = logs;
            },
            None => {
                let mut buf: VecDeque<String> = VecDeque::new();
                buf.push_back(owned(line));
                proof {
                    assert(!exists|j: int| 0 <= j < old_l.len() && old_l[j].0 == key) by {
                        assert forall|j: int| 0 <= j < old_l.len() implies old_l[j].0 != key by {
                            assert(old_l[j].0 == self.logs@[j].0@);
                        }
                    }
                    assert(texts(buf@) =~= keep_latest(Seq::<Seq<char>>::empty().push(line@)));
                }
                let mut logs: Vec<(String, VecDeque<String>)> = Vec::new();
                std::mem::swap(&mut logs, &mut self.logs);
                let ghost before = logs@;
                logs.push((owned(id), buf));
                proof {
                    assert(log_models(logs@) =~= old_l.push((key, keep_latest(Seq::<Seq<char>>::empty().push(line@)))));
                    lemma_assign(old_l, key, keep_latest(Seq::<Seq<char>>::empty().push(line@)));
                    assert forall|m: int| 0 <= m < logs@.len() implies (#[trigger] logs@[m]).1@.len() <= LOG_BUFFER_CAP by {
                        if m < before.len() {
                            assert(logs@[m] == before[m]);
                        }
                    }
                }
                self.logs = logs;
            },
        }
        proof {
            lemma_assign(old_l, key, keep_latest(log_of(old(self)@, key).push(line@)));
        }
    }

    /// The kept log lines of `id`, oldest first.
    pub fn log_buffer(&self, id: &str) -> (r: Vec<String>)
        ensures
            texts(r@) == log_of(self@, id@),
            r@.len() <= LOG_BUFFER_CAP,
    {
        proof {
            use_type_invariant(self);
        }
        match position_of(&self.logs, id) {
            Some(i) => {
                proof {
                    lemma_lookup_at(log_models(self.logs@), i as int);
                }
                let buf = &self.logs[i].1;
                let mut r: Vec<String> = Vec::new();
                let mut k: usize = 0;
                while k < buf.len()
                    invariant
                        k <= buf@.len(),
                        r@.len() == k,
                        forall|m: int| 0 <= m < k ==> r@[m]@ == buf@[m]@,
                    decreases buf@.len() - k,
                {
                    r.push(buf[k].clone());
                    k += 1;
                }
                assert(texts(r@) =~= texts(buf@));
                r
            },
            None => {
                assert(!exists|j: int| 0 <= j < self@.logs.len() && self@.logs[j].0 == id@) by {
                    assert forall|j: int| 0 <= j < self@.logs.len() implies self@.logs[j].0 != id@ by {
                        assert(self@.logs[j].0 == self.logs@[j].0@);
                    }
                }
                let r: Vec<String> = Vec::new();
                assert(texts(r@) =~= Seq::<Seq<char>>::empty());
                r
            },
        }
    }

    /// Forgets the logs of `id` (when the instance is deleted).
    pub fn forget_logs(&mut self, id: &str)
        ensures
            final(self)@.logs == unassign(old(self)@.logs, id@),
            final(self)@.children == old(self)@.children,
    {
        proof {
            use_type_invariant(&*self);
        }
        let ghost old_l = log_models(self.logs@);
        match position_of(&self.logs, id) {
            Some(i) => {
                let mut logs: Vec<(String, VecDeque<String>)> = Vec::new();
                std::mem::swap(&mut logs, &mut self.logs);
                let ghost before = logs@;
                let _gone = logs.remove(i);
                proof {
                    assert(log_models(logs@) =~= old_l.remove(i as int));
                    lemma_unassign_unique(old_l, i as int);
                    lemma_remove_unique(old_l, i as int);
                    assert forall|m: int| 0 <= m < logs@.len() implies (#[trigger] logs@[m]).1@.len() <= LOG_BUFFER_CAP by {
                        if m < i {
                            assert(logs@[m] == before[m]);
                        } else {
                            assert(logs@[m] == before[m + 1]);
                        }
                    }
                }
                self.logs = logs;
            },
            None => {
                proof {
                    assert(old_l.filter(|e: (Seq<char>, Seq<Seq<char>>)| e.0 != id@) =~= old_l) by {
                        lemma_filter_keeps_all(old_l, id@);
                    }
                }
            },
        }
    }

}

/// What the user interface is told about each running instance, in the
/// order the instances were started: one entry per running instance, no id
/// twice.
pub fn get_running(state: &AppState) -> (r: Vec<RunningInfo>)
    ensures
        unique_keys(state@.children),
        forall|i: int, j: int| 0 <= i < j < r@.len() ==> r@[i]@.instance_id != r@[j]@.instance_id,
        r@.len() == state@.children.len(),
        forall|i: int| 0 <= i < r@.len() ==> #[trigger] r@[i]@ == (RunningModel {
            instance_id: state@.children[i].0,
            pid: state@.children[i].1.pid,
            port: state@.children[i].1.port,
            started_at: state@.children[i].1.started_at,
            boot_url: state@.children[i].1.boot_url,
        }),
{
    proof {
        use_type_invariant(state);
    }
    let mut r: Vec<RunningInfo> = Vec::new();
    let mut i: usize = 0;
    while i < state.children.len()
        invariant
            i <= state.children@.len(),
            r@.len() == i,
            forall|k: int| 0 <= k < i ==> #[trigger] r@[k]@ == (RunningModel {
                instance_id: state@.children[k].0,
                pid: state@.children[k].1.pid,
                port: state@.children[k].1.port,
                started_at: state@.children[k].1.started_at,
                boot_url: state@.children[k].1.boot_url,
            }),
        decreases state.children@.len() - i,
    {
        let e = &state.children[i];
        r.push(
            RunningInfo {
                instance_id: e.0.clone(),
                pid: e.1.pid,
                port: e.1.port,
                started_at: e.1.started_at,
                boot_url: copy_opt(&e.1.boot_url),
            },
        );
        i += 1;
    }
    r
}

/// The pids of the running instances, in the order they were started: the
/// processes to end when the launcher exits, each once.
pub fn pids_to_stop(state: &AppState) -> (r: Vec<u32>)
    ensures
        r@ == state@.children.map_values(|e: (Seq<char>, ChildModel)| e.1.pid),
{
    let mut r: Vec<u32> = Vec::new();
    let mut i: usize = 0;
    while i < state.children.len()
        invariant
            i <= state.children@.len(),
            state@.children.len() == state.children@.len(),
            r@ == state@.children.take(i as int).map_values(|e: (Seq<char>, ChildModel)| e.1.pid),
        decreases state.children@.len() - i,
    {
        let pid = state.children[i].1.pid;
        r.push(pid);
        proof {
            assert(state@.children[i as int].1.pid == pid);
            assert(state@.children.take(i + 1).map_values(|e: (Seq<char>, ChildModel)| e.1.pid) =~= state@.children.take(
                i as int,
            ).map_values(|e: (Seq<char>, ChildModel)| e.1.pid).push(pid));
        }
        i += 1;
    }
    assert(state@.children.take(i as int) =~= state@.children);
    r
}

/// Removing the entry at `i` of a list with unique keys is `unassign` of its key.
proof fn lemma_unassign_unique<V>(entries: Seq<(Seq<char>, V)>, i: int)
    requires
        unique_keys(entries),
        0 <= i < entries.len(),
    ensures
        unassign(entries, entries[i].0) == entries.remove(i),
    decreases entries.len(),
{
    let key = entries[i].0;
    let f = |e: (Seq<char>, V)| e.0 != key;
    if i == entries.len() - 1 {
        assert(entries.drop_last() == entries.remove(i));
        lemma_filter_keeps_all(entries.drop_last(), key);
        reveal_with_fuel(Seq::filter, 1);
        assert(entries.filter(f) == entries.drop_last().filter(f));
    } else {
        let d = entries.drop_last();
        assert(unique_keys(d));
        lemma_unassign_unique(d, i);
        reveal_with_fuel(Seq::filter, 1);
        assert(entries.filter(f) == d.filter(f).push(entries.last()));
        assert(d.remove(i).push(entries.last()) =~= entries.remove(i));
    }
}

/// Removing an entry keeps keys unique.
proof fn lemma_remove_unique<V>(entries: Seq<(Seq<char>, V)>, i: int)
    requires
        unique_keys(entries),
        0 <= i < entries.len(),
    ensures
        unique_keys(entries.remove(i)),
{
    let r = entries.remove(i);
    assert forall|a: int, b: int| 0 <= a < r.len() && 0 <= b < r.len() && a != b implies r[a].0
        != r[b].0 by {
        let a2 = if a < i { a } else { a + 1 };
        let b2 = if b < i { b } else { b + 1 };
        assert(r[a] == entries[a2]);
        assert(r[b] == entries[b2]);
    }
}

/// Filtering out a key that no entry has keeps every entry.
proof fn lemma_filter_keeps_all<V>(entries: Seq<(Seq<char>, V)>, key: Seq<char>)
    requires
        forall|j: int| 0 <= j < entries.len() ==> entries[j].0 != key,
    ensures
        unassign(entries, key) == entries,
    decreases entries.len(),
{
    reveal_with_fuel(Seq::filter, 1);
    if entries.len() > 0 {
        lemma_filter_keeps_all(entries.drop_last(), key);
        assert(entries.drop_last().push(entries.last()) =~= entries);
    } else {
        assert(entries.filter(|e: (Seq<char>, V)| e.0 != key) =~= entries);
    }
}

/// The log of an instance after `lines` were pushed to an empty log, one
/// `push_log` at a time.
pub open spec fn replay(lines: Seq<Seq<char>>) -> Seq<Seq<char>>
    decreases lines.len(),
{
    if lines.len() == 0 {
        Seq::empty()
    } else {
        keep_latest(replay(lines.drop_last()).push(lines.last()))
    }
}

/// However many lines were pushed, an instance's log holds exactly the
/// latest `LOG_BUFFER_CAP` of them (all of them while there are fewer), in
/// the order they were pushed.
pub proof fn lemma_log_keeps_latest(lines: Seq<Seq<char>>)
    ensures
        replay(lines) == keep_latest(lines),
    decreases lines.len(),
{
    if lines.len() > 0 {
        let p = lines.drop_last();
        let x = lines.last();
        lemma_log_keeps_latest(p);
        assert(p.push(x) =~= lines);
        if p.len() > LOG_BUFFER_CAP {
            let kp = p.subrange(p.len() - LOG_BUFFER_CAP, p.len() as int);
            assert(kp.push(x).subrange(1, kp.len() as int + 1) =~= lines.subrange(
                lines.len() - LOG_BUFFER_CAP,
                lines.len() as int,
            ));
        }
    }
}

} // verus!
