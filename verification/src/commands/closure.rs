use vstd::prelude::*;
use crate::lang::errors::JobError;
use crate::lang::scope::Scopes;
use crate::lang::scope_model::{ScopeModel, fresh, with_binding};
use crate::lang::table::Argument;
use crate::lang::value::Closure;

verus! {

/// The scope in which a closure runs on its arguments: a new scope under
/// the one it captured, with each named argument bound to its name, a
/// later one over an earlier one of the same name. Arguments without a
/// name bind by position and get no name here.
pub open spec fn invocation_scope(captured: usize, arguments: Seq<Argument>) -> ScopeModel
    decreases arguments.len(),
{
    if arguments.len() == 0 {
        fresh(Some(captured))
    } else {
        let before = invocation_scope(captured, arguments.drop_last());
        match arguments.last().name {
            Some(n) => with_binding(before, n@, arguments.last().value),
            None => before,
        }
    }
}

/// The scope of an invocation hangs under the captured scope, imports
/// nothing and is open to the body's own declarations.
pub proof fn lemma_invocation_scope(captured: usize, arguments: Seq<Argument>)
    ensures
        invocation_scope(captured, arguments).parent == Some(captured),
        invocation_scope(captured, arguments).uses == Seq::<usize>::empty(),
        !invocation_scope(captured, arguments).readonly,
    decreases arguments.len(),
{
    if arguments.len() > 0 {
        lemma_invocation_scope(captured, arguments.drop_last());
    }
}

/// Makes the scope for one invocation of a closure and gives its index.
/// The captured scope and every other scope stay as they are, so the same
/// closure can be entered again and again.
pub fn enter(scopes: &mut Scopes, closure: &Closure, arguments: &Vec<Argument>) -> (r: Result<
    usize,
    JobError,
>)
    ensures
        closure.captured_scope >= old(scopes)@.len() ==> r == Err::<usize, JobError>(
            JobError::UnknownScope,
        ) && final(scopes)@ == old(scopes)@,
        closure.captured_scope < old(scopes)@.len() ==> r.is_ok() && r.unwrap() == old(scopes)@.len()
            && final(scopes)@ == old(scopes)@.push(invocation_scope(closure.captured_scope, arguments@)),
{
    if closure.captured_scope >= scopes.len() {
        return Err(JobError::UnknownScope);
    }
    let id = scopes.create(Some(closure.captured_scope));
    let mut i: usize = 0;
    proof {
        assert(arguments@.take(0) =~= Seq::<Argument>::empty());
    }
    while i < arguments.len()
        invariant
            i <= arguments@.len(),
            id == old(scopes)@.len(),
            scopes@ == old(scopes)@.push(
                invocation_scope(closure.captured_scope, arguments@.take(i as int)),
            ),
        decreases arguments.len() - i,
    {
        let ghost bound = invocation_scope(closure.captured_scope, arguments@.take(i as int));
        proof {
            lemma_invocation_scope(closure.captured_scope, arguments@.take(i as int));
            assert(arguments@.take(i + 1).drop_last() =~= arguments@.take(i as int));
            assert(scopes@[id as int] == bound);
        }
        match &arguments[i].name {
            Some(name) => {
                scopes.declare(id, name.as_str(), arguments[i].value.duplicate())?;
                proof {
                    assert(scopes@ =~= old(scopes)@.push(
                        invocation_scope(closure.captured_scope, arguments@.take(i + 1)),
                    ));
                }
            },
            None => {},
        }
        i += 1;
    }
    proof {
        assert(arguments@.take(i as int) =~= arguments@);
    }
    Ok(id)
}

} // verus!
