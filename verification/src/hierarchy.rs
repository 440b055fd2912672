//! Settings of the hierarchy view, and which of its scopes are opened.
use crate::system_state::SystemState;
use crate::wave_refs::ScopeRef;
use vstd::prelude::*;

verus! {

/// How scopes and variables are laid out in the hierarchy view.
#[derive(Clone, Copy, Debug, PartialEq, Eq, Structural)]
pub enum HierarchyStyle {
    Separate,
    Tree,
    Variables,
}

/// Where parameters are shown.
#[derive(Clone, Copy, Debug, PartialEq, Eq, Structural)]
pub enum ParameterDisplayLocation {
    Variables,
    Scopes,
    Tooltips,
    Nowhere,
}

/// A request to open or close scopes of the hierarchy view.
#[derive(Debug, PartialEq, Eq)]
pub enum ScopeExpandType {
    /// Open the scopes on the path to this one.
    ExpandSpecific(ScopeRef),
    ExpandAll,
    CollapseAll,
}

/// The names of a scope path, each taken as its characters.
pub open spec fn path_names(strs: Seq<String>) -> Seq<Seq<char>> {
    strs.map_values(|s: String| s@)
}

/// Whether `prefix` is a prefix of `path`, name by name.
pub open spec fn is_path_prefix(prefix: Seq<String>, path: Seq<String>) -> bool {
    prefix.len() <= path.len() && path_names(path).subrange(0, prefix.len() as int) == path_names(
        prefix,
    )
}

/// Whether a request to open `target` cannot be checked against `scope` without an underflow:
/// both paths are empty.
pub open spec fn expand_request_underflows(target: Seq<String>, scope: Seq<String>) -> bool {
    target.len() == 0 && scope.len() == 0
}

/// The answer for a scope header: whether to open it and whether to scroll to it.
pub open spec fn header_answer(request: Option<ScopeExpandType>, scope: Seq<String>) -> Option<
    (bool, bool),
> {
    match request {
        None => None,
        Some(ScopeExpandType::ExpandAll) => Some((true, false)),
        Some(ScopeExpandType::CollapseAll) => Some((false, false)),
        Some(ScopeExpandType::ExpandSpecific(target)) => {
            if is_path_prefix(scope, target.strs@) {
                Some((true, true))
            } else {
                None
            }
        },
    }
}

/// Whether answering for `scope` consumes the request: it asks to open `scope`'s child.
pub open spec fn header_request_done(request: Option<ScopeExpandType>, scope: Seq<String>) -> bool {
    match request {
        Some(ScopeExpandType::ExpandSpecific(target)) => is_path_prefix(scope, target.strs@)
            && target.strs@.len() - 1 == scope.len(),
        _ => false,
    }
}

/// Whether `prefix` is a prefix of `path`, comparing the names.
fn starts_with(path: &Vec<String>, prefix: &Vec<String>) -> (res: bool)
    ensures
        res == is_path_prefix(prefix@, path@),
{
    if prefix.len() > path.len() {
        return false;
    }
    let mut i: usize = 0;
    while i < prefix.len()
        invariant
            i <= prefix.len() <= path.len(),
            forall|j: int| 0 <= j < i ==> #[trigger] path@[j]@ == prefix@[j]@,
        decreases prefix.len() - i,
    {
        if path[i] != prefix[i] {
            assert(path_names(path@).subrange(0, prefix@.len() as int)[i as int]
                != path_names(prefix@)[i as int]);
            return false;
        }
        i = i + 1;
    }
    assert(path_names(path@).subrange(0, prefix@.len() as int) =~= path_names(prefix@));
    true
}

impl SystemState {
    /// Whether the header of `scope` is to be opened and scrolled to, as the pending request
    /// says; `None` leaves it as the user has it. A request to open a specific scope is
    /// dropped once the header of its parent has answered it.
    pub fn should_open_header_and_scroll_to(&mut self, scope: &ScopeRef) -> (res: Option<
        (bool, bool),
    >)
        requires
            match old(self).scope_ref_to_expand {
                Some(ScopeExpandType::ExpandSpecific(target)) => !expand_request_underflows(
                    target.strs@,
                    scope.strs@,
                ),
                _ => true,
            },
        ensures
            res == header_answer(old(self).scope_ref_to_expand, scope.strs@),
            final(self).scope_ref_to_expand == (if header_request_done(
                old(self).scope_ref_to_expand,
                scope.strs@,
            ) {
                None
            } else {
                old(self).scope_ref_to_expand
            }),
            final(self).batch_messages == old(self).batch_messages,
            final(self).progress_tracker == old(self).progress_tracker,
            final(self).user == old(self).user,
    {
        let mut clear = false;
        let res = match &self.scope_ref_to_expand {
            None => None,
            Some(ScopeExpandType::ExpandAll) => Some((true, false)),
            Some(ScopeExpandType::CollapseAll) => Some((false, false)),
            Some(ScopeExpandType::ExpandSpecific(target)) => {
                if starts_with(&target.strs, &scope.strs) {
                    if target.strs.len() - 1 == scope.strs.len() {
                        clear = true;
                    }
                    Some((true, true))
                } else {
                    None
                }
            },
        };
        if clear {
            self.scope_ref_to_expand = None;
        }
        res
    }
}

} // verus!
