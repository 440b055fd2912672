//! References to scopes, variables and transaction streams of a loaded wave form.
use vstd::prelude::*;

verus! {

/// The path of a scope in the hierarchy, outermost name first.
#[derive(Debug, Clone, PartialEq, Eq)]
pub struct ScopeRef {
    pub strs: Vec<String>,
}

/// The id of a variable in the loaded wave form.
#[derive(Debug, Clone, Copy, PartialEq, Eq, Default, Structural)]
pub struct VarId(pub u64);

/// A variable: its scope, its name and, for array elements, its index.
#[derive(Debug, Clone, PartialEq, Eq)]
pub struct VariableRef {
    pub path: ScopeRef,
    pub name: String,
    pub id: VarId,
    pub index: Option<i64>,
}

/// A transaction stream, or one of its generators.
#[derive(Debug, Clone, PartialEq, Eq)]
pub struct TransactionStreamRef {
    pub stream_id: usize,
    pub gen_id: Option<usize>,
    pub name: String,
}

/// The last name of a scope path, or the empty string for the root.
pub open spec fn scope_name(strs: Seq<String>) -> Seq<char> {
    if strs.len() > 0 {
        strs.last()@
    } else {
        Seq::empty()
    }
}

impl ScopeRef {
    /// The root scope.
    pub fn empty() -> (res: Self)
        ensures
            res.strs@.len() == 0,
    {
        ScopeRef { strs: Vec::new() }
    }

    /// The scope with the given path.
    pub fn from_strs(strs: Vec<String>) -> (res: Self)
        ensures
            res.strs@ == strs@,
    {
        ScopeRef { strs }
    }

    /// The name of the scope: the last element of its path.
    pub fn name(&self) -> (res: String)
        ensures
            res@ == scope_name(self.strs@),
    {
        let n = self.strs.len();
        if n > 0 {
            self.strs[n - 1].clone()
        } else {
            String::new()
        }
    }
}

impl VariableRef {
    /// A variable that is not an array element.
    pub fn new(path: ScopeRef, name: String) -> (res: Self)
        ensures
            res.path == path,
            res.name == name,
            res.id == VarId(0),
            res.index is None,
    {
        VariableRef { path, name, id: VarId(0), index: None }
    }

    /// A variable with an id and an optional array index.
    pub fn new_with_id_and_index(path: ScopeRef, name: String, id: VarId, index: Option<i64>) -> (res:
        Self)
        ensures
            res == (VariableRef { path, name, id, index }),
    {
        VariableRef { path, name, id, index }
    }
}

} // verus!
