//! On-disk layout of the launcher: a path is a root chosen by the user or the
//! environment, followed by components that the launcher appends. Keeping the
//! components apart lets contracts say exactly which names were appended.

use vstd::prelude::*;
use crate::text::owned;

verus! {

/// The texts of a list of strings.
pub open spec fn texts(v: Seq<String>) -> Seq<Seq<char>> {
    v.map_values(|s: String| s@)
}

/// A filesystem path: `root` joined with each of `parts` in turn.
pub struct DataPath {
    pub root: String,
    pub parts: Vec<String>,
}

/// Mathematical model of a [`DataPath`].
pub struct PathModel {
    pub root: Seq<char>,
    pub parts: Seq<Seq<char>>,
}

impl PathModel {
    pub open spec fn join(self, name: Seq<char>) -> PathModel {
        PathModel { root: self.root, parts: self.parts.push(name) }
    }
}

impl View for DataPath {
    type V = PathModel;

    open spec fn view(&self) -> PathModel {
        PathModel { root: self.root@, parts: texts(self.parts@) }
    }
}

/// A copy of a list of strings.
pub fn copy_strings(v: &Vec<String>) -> (r: Vec<String>)
    ensures
        texts(r@) == texts(v@),
        r@.len() == v@.len(),
{
    let mut r: Vec<String> = Vec::new();
    let mut i: usize = 0;
    while i < v.len()
        invariant
            i <= v@.len(),
            r@.len() == i,
            forall|k: int| 0 <= k < i ==> r@[k]@ == v@[k]@,
        decreases v@.len() - i,
    {
        r.push(v[i].clone());
        i += 1;
    }
    assert(texts(r@) =~= texts(v@));
    r
}

impl DataPath {
    /// Model of the path that is just `root`.
    pub open spec fn spec_from_root(root: Seq<char>) -> PathModel {
        PathModel { root, parts: Seq::empty() }
    }

    /// A path that is just `root`.
    pub fn from_root(root: &str) -> (r: DataPath)
        ensures
            r@ == (PathModel { root: root@, parts: Seq::empty() }),
    {
        let r = DataPath { root: owned(root), parts: Vec::new() };
        assert(texts(r.parts@) =~= Seq::<Seq<char>>::empty());
        r
    }

    /// This path with `name` appended (`Path::join` of a relative name).
    pub fn join(&self, name: &str) -> (r: DataPath)
        ensures
            r@ == self@.join(name@),
    {
        let mut parts = copy_strings(&self.parts);
        let ghost before = parts@;
        parts.push(owned(name));
        assert(texts(parts@) =~= texts(before).push(name@));
        DataPath { root: self.root.clone(), parts }
    }
}

/// A copy of a path.
pub fn copy_path(p: &DataPath) -> (r: DataPath)
    ensures
        r@ == p@,
{
    DataPath { root: p.root.clone(), parts: copy_strings(&p.parts) }
}

/// One argument of a command line that the launcher runs: a fixed text, or
/// a path. Command lines are argument lists, never handed to a shell.
pub enum CommandArg {
    Text(String),
    Path(DataPath),
}

/// Mathematical model of a [`CommandArg`].
pub enum ArgModel {
    Text(Seq<char>),
    Path(PathModel),
}

impl View for CommandArg {
    type V = ArgModel;

    open spec fn view(&self) -> ArgModel {
        match self {
            CommandArg::Text(t) => ArgModel::Text(t@),
            CommandArg::Path(p) => ArgModel::Path(p@),
        }
    }
}

/// Models of a list of arguments.
pub open spec fn arg_models(v: Seq<CommandArg>) -> Seq<ArgModel> {
    v.map_values(|a: CommandArg| a@)
}

/// A text argument.
pub fn text_arg(t: &str) -> (r: CommandArg)
    ensures
        r@ == ArgModel::Text(t@),
{
    CommandArg::Text(owned(t))
}

/// A path argument.
pub fn path_arg(p: &DataPath) -> (r: CommandArg)
    ensures
        r@ == ArgModel::Path(p@),
{
    CommandArg::Path(copy_path(p))
}

} // verus!
