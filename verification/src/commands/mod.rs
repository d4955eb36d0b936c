pub mod call;
pub mod closure;
pub mod head;
pub mod split;
pub mod where_cmd;
pub mod var;

use vstd::prelude::*;
use crate::lang::errors::JobError;
use crate::lang::scope::Scopes;
use crate::lang::scope_model::{ScopeModel, frozen, with_namespace, declare_result};

verus! {

/// The arena once every namespace stands in `root` and `root` is frozen.
pub open spec fn with_library(scopes: Seq<ScopeModel>, root: usize) -> Seq<ScopeModel> {
    let first = with_namespace(scopes, root, "var"@, var::var_namespace(root));
    let second = with_namespace(first, root, "split"@, split::split_namespace(root));
    second.update(root as int, frozen(second[root as int]))
}

/// Adds the namespaces of all the commands to `root`, then freezes it.
/// Nothing is added to a root that is frozen already.
pub fn declare(scopes: &mut Scopes, root: usize) -> (r: Result<(), JobError>)
    ensures
        r == declare_result(old(scopes)@, root),
        final(scopes)@ == (if r.is_ok() {
            with_library(old(scopes)@, root)
        } else {
            old(scopes)@
        }),
        r.is_ok() ==> var::holds_var_commands(final(scopes)@[old(scopes)@.len() as int])
            && split::holds_split_commands(final(scopes)@[old(scopes)@.len() as int + 1]),
{
    match var::declare(scopes, root) {
        Ok(_) => {},
        Err(e) => { return Err(e); },
    }
    match split::declare(scopes, root) {
        Ok(_) => {},
        Err(e) => { return Err(e); },
    }
    match scopes.readonly(root) {
        Ok(_) => {},
        Err(e) => { return Err(e); },
    }
    Ok(())
}

} // verus!
