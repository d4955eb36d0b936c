use vstd::prelude::*;
use crate::lang::errors::JobError;
use crate::lang::value::{Value, Builtin, OutputType};

verus! {

/// What a scope is, mathematically: its own bindings, the scopes it imports
/// in the order they were imported, its parent, and whether it is frozen.
/// Scopes refer to each other by their index in the arena that holds them.
pub struct ScopeModel {
    pub bindings: Map<Seq<char>, Value>,
    pub uses: Seq<usize>,
    pub parent: Option<usize>,
    pub readonly: bool,
}

/// The number of scopes that a search has not yet entered.
pub open spec fn unvisited(visited: Seq<bool>) -> nat
    decreases visited.len(),
{
    if visited.len() == 0 {
        0
    } else {
        unvisited(visited.drop_last()) + if visited.last() {
            0nat
        } else {
            1nat
        }
    }
}

/// The sequence read backwards.
pub open spec fn reversed(s: Seq<usize>) -> Seq<usize> {
    Seq::new(s.len(), |i: int| s[s.len() - 1 - i])
}

/// The scopes that a search turns to after `scope` itself, as a stack whose
/// top is its end: the imports in their order, and under them the parent.
pub open spec fn pending(scope: ScopeModel) -> Seq<usize> {
    let below = match scope.parent {
        Some(p) => seq![p],
        None => Seq::<usize>::empty(),
    };
    below + reversed(scope.uses)
}

/// The search for the scope that binds `name`. `stack` holds the scopes
/// still to be searched, the next one at its end; `visited` marks those
/// already entered, which are passed over, so that a cycle of imports ends
/// the branch instead of the search running on. The first scope found to
/// bind the name is the answer.
pub open spec fn search(
    scopes: Seq<ScopeModel>,
    stack: Seq<usize>,
    visited: Seq<bool>,
    name: Seq<char>,
) -> Option<usize>
    decreases unvisited(visited), stack.len(),
{
    if stack.len() == 0 || visited.len() != scopes.len() {
        None
    } else {
        let id = stack.last();
        let rest = stack.drop_last();
        if id >= scopes.len() || visited[id as int] {
            search(scopes, rest, visited, name)
        } else if scopes[id as int].bindings.contains_key(name) {
            Some(id)
        } else {
            proof {
                lemma_mark_visited(visited, id as int);
            }
            search(scopes, rest + pending(scopes[id as int]), visited.update(id as int, true), name)
        }
    }
}

/// No scope entered yet.
pub open spec fn none_visited(n: nat) -> Seq<bool> {
    Seq::new(n, |i: int| false)
}

/// The scope in which a lookup of `name` that starts at `start` finds it:
/// `start` itself, else what each import of it resolves to, in order, else
/// what its parent resolves to; `None` where none of them binds the name.
pub open spec fn resolve(scopes: Seq<ScopeModel>, start: usize, name: Seq<char>) -> Option<usize> {
    search(scopes, seq![start], none_visited(scopes.len()), name)
}

/// Frozen scopes keep their bindings and stay frozen, and no scope is lost.
pub open spec fn frozen_kept(before: Seq<ScopeModel>, after: Seq<ScopeModel>) -> bool {
    &&& before.len() <= after.len()
    &&& forall|i: int|
        0 <= i < before.len() && (#[trigger] before[i]).readonly ==> after[i].readonly
            && after[i].bindings == before[i].bindings
}

/// The scope with one more binding, or one binding replaced.
pub open spec fn with_binding(scope: ScopeModel, name: Seq<char>, value: Value) -> ScopeModel {
    ScopeModel { bindings: scope.bindings.insert(name, value), ..scope }
}

/// The scope without the binding of `name`.
pub open spec fn without_binding(scope: ScopeModel, name: Seq<char>) -> ScopeModel {
    ScopeModel { bindings: scope.bindings.remove(name), ..scope }
}

/// The scope with one more import, behind those it has.
pub open spec fn with_use(scope: ScopeModel, other: usize) -> ScopeModel {
    ScopeModel { uses: scope.uses.push(other), ..scope }
}

/// The scope, frozen.
pub open spec fn frozen(scope: ScopeModel) -> ScopeModel {
    ScopeModel { readonly: true, ..scope }
}

/// A new scope under `parent`: no bindings, no imports, not frozen.
pub open spec fn fresh(parent: Option<usize>) -> ScopeModel {
    ScopeModel { bindings: Map::empty(), uses: Seq::empty(), parent, readonly: false }
}

/// Entering a scope leaves fewer scopes to enter.
pub proof fn lemma_mark_visited(visited: Seq<bool>, id: int)
    requires
        0 <= id < visited.len(),
        !visited[id],
    ensures
        unvisited(visited.update(id, true)) < unvisited(visited),
    decreases visited.len(),
{
    let marked = visited.update(id, true);
    if id == visited.len() - 1 {
        assert(marked.drop_last() =~= visited.drop_last());
    } else {
        lemma_mark_visited(visited.drop_last(), id);
        assert(marked.drop_last() =~= visited.drop_last().update(id, true));
    }
}

/// Declaring a name in a scope makes a lookup from that scope find it
/// there, with the value declared.
pub proof fn law_declare_then_lookup(scopes: Seq<ScopeModel>, id: usize, name: Seq<char>, value: Value)
    requires
        id < scopes.len(),
    ensures
        ({
            let after = scopes.update(id as int, with_binding(scopes[id as int], name, value));
            resolve(after, id, name) == Some(id) && after[id as int].bindings[name] == value
        }),
{
    let after = scopes.update(id as int, with_binding(scopes[id as int], name, value));
    assert(seq![id].last() == id);
    assert(after[id as int].bindings.contains_key(name));
}

/// A name that no scope binds resolves nowhere, whatever the search has
/// before it.
pub proof fn law_unbound_name_unresolved(
    scopes: Seq<ScopeModel>,
    stack: Seq<usize>,
    visited: Seq<bool>,
    name: Seq<char>,
)
    requires
        forall|i: int| 0 <= i < scopes.len() ==> !(#[trigger] scopes[i]).bindings.contains_key(name),
    ensures
        search(scopes, stack, visited, name).is_none(),
    decreases unvisited(visited), stack.len(),
{
    if stack.len() == 0 || visited.len() != scopes.len() {
    } else {
        let id = stack.last();
        let rest = stack.drop_last();
        if id >= scopes.len() || visited[id as int] {
            law_unbound_name_unresolved(scopes, rest, visited, name);
        } else {
            lemma_mark_visited(visited, id as int);
            law_unbound_name_unresolved(
                scopes,
                rest + pending(scopes[id as int]),
                visited.update(id as int, true),
                name,
            );
        }
    }
}

/// What a search answers is a scope of the arena that binds the name.
pub proof fn law_search_sound(
    scopes: Seq<ScopeModel>,
    stack: Seq<usize>,
    visited: Seq<bool>,
    name: Seq<char>,
)
    ensures
        match search(scopes, stack, visited, name) {
            Some(owner) => owner < scopes.len() && scopes[owner as int].bindings.contains_key(name),
            None => true,
        },
    decreases unvisited(visited), stack.len(),
{
    if stack.len() == 0 || visited.len() != scopes.len() {
    } else {
        let id = stack.last();
        let rest = stack.drop_last();
        if id >= scopes.len() || visited[id as int] {
            law_search_sound(scopes, rest, visited, name);
        } else if scopes[id as int].bindings.contains_key(name) {
        } else {
            lemma_mark_visited(visited, id as int);
            law_search_sound(
                scopes,
                rest + pending(scopes[id as int]),
                visited.update(id as int, true),
                name,
            );
        }
    }
}

/// Where one scope alone binds a name, a search that still has that scope
/// before it, not yet entered, ends there.
pub proof fn lemma_search_reaches(
    scopes: Seq<ScopeModel>,
    stack: Seq<usize>,
    visited: Seq<bool>,
    name: Seq<char>,
    target: usize,
)
    requires
        visited.len() == scopes.len(),
        target < scopes.len(),
        scopes[target as int].bindings.contains_key(name),
        forall|i: int|
            0 <= i < scopes.len() && i != target ==> !(#[trigger] scopes[i]).bindings.contains_key(name),
        !visited[target as int],
        stack.contains(target),
    ensures
        search(scopes, stack, visited, name) == Some(target),
    decreases unvisited(visited), stack.len(),
{
    let id = stack.last();
    let rest = stack.drop_last();
    let at = choose|k: int| 0 <= k < stack.len() && stack[k] == target;
    if id >= scopes.len() || visited[id as int] {
        assert(id != target);
        assert(rest[at] == target);
        lemma_search_reaches(scopes, rest, visited, name, target);
    } else if scopes[id as int].bindings.contains_key(name) {
        assert(id == target);
    } else {
        assert(id != target);
        lemma_mark_visited(visited, id as int);
        let next = rest + pending(scopes[id as int]);
        assert(next[at] == target);
        lemma_search_reaches(scopes, next, visited.update(id as int, true), name, target);
    }
}

/// Once a scope imports another, a lookup from the first of a name that
/// only the second binds finds it in the second; so it gives whatever the
/// second binds to the name at the time of the lookup.
pub proof fn law_use_then_lookup(scopes: Seq<ScopeModel>, id: usize, other: usize, name: Seq<char>)
    requires
        id < scopes.len(),
        other < scopes.len(),
        scopes[id as int].uses.contains(other),
        scopes[other as int].bindings.contains_key(name),
        forall|i: int|
            0 <= i < scopes.len() && i != other ==> !(#[trigger] scopes[i]).bindings.contains_key(name),
    ensures
        resolve(scopes, id, name) == Some(other),
{
    let visited = none_visited(scopes.len());
    assert(seq![id].contains(id));
    if id == other {
        lemma_search_reaches(scopes, seq![id], visited, name, other);
    } else {
        let uses = scopes[id as int].uses;
        let k = choose|k: int| 0 <= k < uses.len() && uses[k] == other;
        let next = seq![id].drop_last() + pending(scopes[id as int]);
        let back = reversed(uses);
        assert(back[uses.len() - 1 - k] == other);
        assert(pending(scopes[id as int]).contains(other)) by {
            let below = pending(scopes[id as int]).len() - uses.len();
            assert(pending(scopes[id as int])[below + uses.len() - 1 - k] == other);
        }
        let spot = choose|j: int|
            0 <= j < pending(scopes[id as int]).len() && pending(scopes[id as int])[j] == other;
        assert(next[spot] == other);
        lemma_mark_visited(visited, id as int);
        lemma_search_reaches(scopes, next, visited.update(id as int, true), name, other);
        assert(seq![id].last() == id);
    }
}

/// The scope binds `name` to `command`, a command that may block or not
/// as `may_block` says and that declares the output `output`.
pub open spec fn registers(
    scope: ScopeModel,
    name: Seq<char>,
    command: Builtin,
    may_block: bool,
    output: OutputType,
) -> bool {
    &&& scope.bindings.contains_key(name)
    &&& scope.bindings[name] == Value::Command(command)
    &&& command.spec_can_block() == may_block
    &&& command.spec_declared_output() == output
}

/// The arena with a namespace added: the new scope at the end, and in
/// `root` a binding of `name` to it.
pub open spec fn with_namespace(
    scopes: Seq<ScopeModel>,
    root: usize,
    name: Seq<char>,
    namespace: ScopeModel,
) -> Seq<ScopeModel> {
    scopes.push(namespace).update(
        root as int,
        with_binding(scopes[root as int], name, Value::Scope(scopes.len() as usize)),
    )
}

/// A name that a scope binds itself resolves to that scope, whatever its
/// imports and parents bind.
pub proof fn law_local_binding_wins(scopes: Seq<ScopeModel>, id: usize, name: Seq<char>)
    requires
        id < scopes.len(),
        scopes[id as int].bindings.contains_key(name),
    ensures
        resolve(scopes, id, name) == Some(id),
{
    assert(seq![id].last() == id);
}

/// Searching the scope for the name finds nothing and leads nowhere: it
/// is no scope of the arena, or it binds the name not and has neither
/// imports nor a parent.
pub open spec fn passes_by(scopes: Seq<ScopeModel>, id: usize, name: Seq<char>) -> bool {
    id >= scopes.len() || (!scopes[id as int].bindings.contains_key(name) && scopes[id as int].uses.len()
        == 0 && scopes[id as int].parent.is_none())
}

/// A search that has only scopes to pass by above a scope that binds the
/// name ends at that scope.
proof fn lemma_search_passes(
    scopes: Seq<ScopeModel>,
    lower: Seq<usize>,
    upper: Seq<usize>,
    visited: Seq<bool>,
    name: Seq<char>,
    target: usize,
)
    requires
        visited.len() == scopes.len(),
        target < scopes.len(),
        !visited[target as int],
        scopes[target as int].bindings.contains_key(name),
        lower.len() > 0,
        lower.last() == target,
        forall|i: int|
            0 <= i < upper.len() ==> passes_by(scopes, #[trigger] upper[i], name) || (upper[i] < visited.len()
                && visited[upper[i] as int]),
    ensures
        search(scopes, lower + upper, visited, name) == Some(target),
    decreases upper.len(),
{
    let stack = lower + upper;
    if upper.len() == 0 {
        assert(stack =~= lower);
    } else {
        let top = upper.last();
        let shorter = upper.drop_last();
        assert(stack.last() == top);
        assert(stack.drop_last() =~= lower + shorter);
        assert(passes_by(scopes, upper[upper.len() - 1], name) || (top < visited.len() && visited[top as int]));
        if top >= scopes.len() || visited[top as int] {
            assert forall|i: int| 0 <= i < shorter.len() implies passes_by(scopes, #[trigger] shorter[i], name)
                || (shorter[i] < visited.len() && visited[shorter[i] as int]) by {
                assert(shorter[i] == upper[i]);
            }
            lemma_search_passes(scopes, lower, shorter, visited, name, target);
        } else {
            let marked = visited.update(top as int, true);
            assert(pending(scopes[top as int]) =~= Seq::<usize>::empty());
            assert(stack.drop_last() + pending(scopes[top as int]) =~= lower + shorter);
            assert forall|i: int| 0 <= i < shorter.len() implies passes_by(scopes, #[trigger] shorter[i], name)
                || (shorter[i] < marked.len() && marked[shorter[i] as int]) by {
                assert(shorter[i] == upper[i]);
            }
            lemma_search_passes(scopes, lower, shorter, marked, name, target);
        }
    }
}

/// Imports are searched before the parent, in their order: a name that a
/// scope does not bind itself resolves to the import that binds it, where
/// the imports before that one are passed by, whatever the parent chain and
/// the imports after it bind.
pub proof fn law_use_before_parent(
    scopes: Seq<ScopeModel>,
    id: usize,
    other: usize,
    name: Seq<char>,
    at: int,
)
    requires
        id < scopes.len(),
        other < scopes.len(),
        other != id,
        !scopes[id as int].bindings.contains_key(name),
        0 <= at < scopes[id as int].uses.len(),
        scopes[id as int].uses[at] == other,
        scopes[other as int].bindings.contains_key(name),
        forall|j: int|
            0 <= j < at ==> passes_by(scopes, #[trigger] scopes[id as int].uses[j], name)
                || scopes[id as int].uses[j] == id,
    ensures
        resolve(scopes, id, name) == Some(other),
{
    let uses = scopes[id as int].uses;
    let visited = none_visited(scopes.len());
    let marked = visited.update(id as int, true);
    let next = seq![id].drop_last() + pending(scopes[id as int]);
    let cut = next.len() - at;
    let lower = next.take(cut);
    let upper = next.skip(cut);
    assert(seq![id].last() == id);
    assert(next =~= lower + upper);
    let below = next.len() - uses.len();
    assert(lower.last() == next[cut - 1]);
    assert(next[cut - 1] == reversed(uses)[cut - 1 - below]);
    assert forall|i: int| 0 <= i < upper.len() implies passes_by(scopes, #[trigger] upper[i], name) || (
        upper[i] < marked.len() && marked[upper[i] as int]) by {
        assert(upper[i] == next[cut + i]);
        assert(next[cut + i] == reversed(uses)[cut + i - below]);
        assert(upper[i] == uses[at - 1 - i]);
    }
    lemma_search_passes(scopes, lower, upper, marked, name, other);
    assert(search(scopes, seq![id], visited, name) == search(scopes, next, marked, name));
}

/// An import copies nothing: what is declared in the imported scope
/// later is what a lookup through the import gives.
pub proof fn law_use_sees_later_declaration(
    scopes: Seq<ScopeModel>,
    id: usize,
    other: usize,
    name: Seq<char>,
    value: Value,
    at: int,
)
    requires
        id < scopes.len(),
        other < scopes.len(),
        other != id,
        !scopes[id as int].bindings.contains_key(name),
        0 <= at < scopes[id as int].uses.len(),
        scopes[id as int].uses[at] == other,
        forall|j: int|
            0 <= j < at ==> (passes_by(scopes, #[trigger] scopes[id as int].uses[j], name)
                && scopes[id as int].uses[j] != other) || scopes[id as int].uses[j] == id,
    ensures
        ({
            let after = scopes.update(other as int, with_binding(scopes[other as int], name, value));
            resolve(after, id, name) == Some(other) && after[other as int].bindings[name] == value
        }),
{
    let after = scopes.update(other as int, with_binding(scopes[other as int], name, value));
    assert(after[id as int] == scopes[id as int]);
    assert forall|j: int| 0 <= j < at implies passes_by(after, #[trigger] after[id as int].uses[j], name)
        || after[id as int].uses[j] == id by {
        let u = scopes[id as int].uses[j];
        if u != id && u < scopes.len() {
            assert(after[u as int] == scopes[u as int]);
        }
    }
    law_use_before_parent(after, id, other, name, at);
}

/// Two arenas have the same shape for a name: as many scopes, each with
/// the same imports and parent, and binding the name in the one where it
/// binds it in the other.
pub open spec fn same_shape(a: Seq<ScopeModel>, b: Seq<ScopeModel>, name: Seq<char>) -> bool {
    &&& a.len() == b.len()
    &&& forall|i: int|
        0 <= i < a.len() ==> (#[trigger] a[i]).uses == b[i].uses && a[i].parent == b[i].parent
            && a[i].bindings.contains_key(name) == b[i].bindings.contains_key(name)
}

/// Where a name resolves to depends on the shape of the arena alone, not
/// on the values that are bound.
pub proof fn law_shape_decides(
    a: Seq<ScopeModel>,
    b: Seq<ScopeModel>,
    stack: Seq<usize>,
    visited: Seq<bool>,
    name: Seq<char>,
)
    requires
        same_shape(a, b, name),
    ensures
        search(a, stack, visited, name) == search(b, stack, visited, name),
    decreases unvisited(visited), stack.len(),
{
    if stack.len() == 0 || visited.len() != a.len() {
    } else {
        let id = stack.last();
        let rest = stack.drop_last();
        if id >= a.len() || visited[id as int] {
            law_shape_decides(a, b, rest, visited, name);
        } else if a[id as int].bindings.contains_key(name) {
        } else {
            lemma_mark_visited(visited, id as int);
            assert(pending(a[id as int]) == pending(b[id as int]));
            law_shape_decides(a, b, rest + pending(a[id as int]), visited.update(id as int, true), name);
        }
    }
}

/// Assigning to a name that no scope binds fails, from whichever scope.
pub proof fn law_set_of_unbound_fails(scopes: Seq<ScopeModel>, id: usize, name: Seq<char>)
    requires
        forall|i: int| 0 <= i < scopes.len() ==> !(#[trigger] scopes[i]).bindings.contains_key(name),
    ensures
        set_result(scopes, id, name).is_err(),
        id < scopes.len() && !scopes[id as int].readonly ==> set_result(scopes, id, name) == Err::<
            (),
            JobError,
        >(JobError::UnknownName),
{
    law_unbound_name_unresolved(scopes, seq![id], none_visited(scopes.len()), name);
}

/// Freezing a frozen scope changes nothing.
pub proof fn law_freezing_twice(scope: ScopeModel)
    ensures
        frozen(frozen(scope)) == frozen(scope),
        scope.readonly ==> frozen(scope) == scope,
{
}

/// A frozen scope refuses to declare, to assign and to remove, whatever
/// the name.
pub proof fn law_frozen_refuses(scopes: Seq<ScopeModel>, id: usize, name: Seq<char>)
    requires
        id < scopes.len(),
        scopes[id as int].readonly,
    ensures
        declare_result(scopes, id) == Err::<(), JobError>(JobError::ReadonlyScope),
        set_result(scopes, id, name) == Err::<(), JobError>(JobError::ReadonlyScope),
        remove_result(scopes, id, name) == Err::<(), JobError>(JobError::ReadonlyScope),
{
}

/// What `declare` answers: it fails for an index that names no scope and
/// for a frozen scope, and succeeds otherwise.
pub open spec fn declare_result(scopes: Seq<ScopeModel>, id: usize) -> Result<(), JobError> {
    if id >= scopes.len() {
        Err(JobError::UnknownScope)
    } else if scopes[id as int].readonly {
        Err(JobError::ReadonlyScope)
    } else {
        Ok(())
    }
}

/// What `set` answers: as `declare`, and it fails too where the name
/// resolves nowhere or resolves to a frozen scope.
pub open spec fn set_result(scopes: Seq<ScopeModel>, id: usize, name: Seq<char>) -> Result<(), JobError> {
    if id >= scopes.len() {
        Err(JobError::UnknownScope)
    } else if scopes[id as int].readonly {
        Err(JobError::ReadonlyScope)
    } else {
        match resolve(scopes, id, name) {
            None => Err(JobError::UnknownName),
            Some(owner) => if owner < scopes.len() && scopes[owner as int].readonly {
                Err(JobError::ReadonlyScope)
            } else {
                Ok(())
            },
        }
    }
}

/// What `remove` answers: as `declare`, and it fails too where the scope
/// itself does not bind the name.
pub open spec fn remove_result(scopes: Seq<ScopeModel>, id: usize, name: Seq<char>) -> Result<(), JobError> {
    if id >= scopes.len() {
        Err(JobError::UnknownScope)
    } else if scopes[id as int].readonly {
        Err(JobError::ReadonlyScope)
    } else if !scopes[id as int].bindings.contains_key(name) {
        Err(JobError::UnknownName)
    } else {
        Ok(())
    }
}

} // verus!
