use vstd::prelude::*;
use vstd::string::*;
use vstd::seq_lib::{to_multiset_build, to_multiset_insert};
use crate::lang::errors::JobError;
use crate::lang::scope::{Scopes, Entry, is_dump, distinct_entries, listed, entry_ok};
use crate::lang::scope_model::{
    ScopeModel, registers, law_local_binding_wins, law_shape_decides, law_search_sound, same_shape,
    none_visited, fresh, with_binding, without_binding, with_use, with_namespace, declare_result,
    set_result, remove_result, resolve,
};
use crate::lang::value::{Value, ValueType, Builtin, OutputType};
use crate::lang::table::{Argument, ColumnType, Row};

verus! {

/// What a command runs on: its arguments and the scope it runs in.
#[derive(Clone, Debug, PartialEq, Eq)]
pub struct ExecutionContext {
    pub arguments: Vec<Argument>,
    pub env: usize,
}

/// The arena after declaring each argument under its name in `env`, in
/// order, and how that ended: at the first argument without a name, or the
/// first that the scope refuses, the rest is left undone.
pub open spec fn declared(scopes: Seq<ScopeModel>, env: usize, arguments: Seq<Argument>) -> (
    Seq<ScopeModel>,
    Result<(), JobError>,
)
    decreases arguments.len(),
{
    if arguments.len() == 0 {
        (scopes, Ok(()))
    } else {
        match arguments[0].name {
            None => (scopes, Err(JobError::MissingVariableName)),
            Some(n) => match declare_result(scopes, env) {
                Err(e) => (scopes, Err(e)),
                Ok(_) => declared(
                    scopes.update(env as int, with_binding(scopes[env as int], n@, arguments[0].value)),
                    env,
                    arguments.skip(1),
                ),
            },
        }
    }
}

/// The arena after assigning each argument to its name, in order, and how
/// that ended.
pub open spec fn assigned(scopes: Seq<ScopeModel>, env: usize, arguments: Seq<Argument>) -> (
    Seq<ScopeModel>,
    Result<(), JobError>,
)
    decreases arguments.len(),
{
    if arguments.len() == 0 {
        (scopes, Ok(()))
    } else {
        match arguments[0].name {
            None => (scopes, Err(JobError::MissingVariableName)),
            Some(n) => match set_result(scopes, env, n@) {
                Err(e) => (scopes, Err(e)),
                Ok(_) => {
                    let owner = resolve(scopes, env, n@).unwrap();
                    assigned(
                        scopes.update(
                            owner as int,
                            with_binding(scopes[owner as int], n@, arguments[0].value),
                        ),
                        env,
                        arguments.skip(1),
                    )
                },
            },
        }
    }
}

/// The name that an argument of `unset` gives: a string that is not empty.
pub open spec fn variable_name(argument: Argument) -> Option<Seq<char>> {
    match argument.value {
        Value::String(s) => if s@.len() == 0 {
            None
        } else {
            Some(s@)
        },
        _ => None,
    }
}

/// The arena after removing the name that each argument gives from `env`,
/// in order, and how that ended.
pub open spec fn removed(scopes: Seq<ScopeModel>, env: usize, arguments: Seq<Argument>) -> (
    Seq<ScopeModel>,
    Result<(), JobError>,
)
    decreases arguments.len(),
{
    if arguments.len() == 0 {
        (scopes, Ok(()))
    } else {
        match variable_name(arguments[0]) {
            None => (scopes, Err(JobError::IllegalVariableName)),
            Some(n) => match remove_result(scopes, env, n) {
                Err(e) => (scopes, Err(e)),
                Ok(_) => removed(
                    scopes.update(env as int, without_binding(scopes[env as int], n)),
                    env,
                    arguments.skip(1),
                ),
            },
        }
    }
}

/// The scope that an argument of `use` gives: a scope, passed without a
/// name.
pub open spec fn used_scope(argument: Argument) -> Option<usize> {
    match (argument.name, argument.value) {
        (None, Value::Scope(e)) => Some(e),
        _ => None,
    }
}

/// The arena after importing the scope that each argument gives into
/// `env`, in order, and how that ended.
pub open spec fn imported(scopes: Seq<ScopeModel>, env: usize, arguments: Seq<Argument>) -> (
    Seq<ScopeModel>,
    Result<(), JobError>,
)
    decreases arguments.len(),
{
    if arguments.len() == 0 {
        (scopes, Ok(()))
    } else {
        match used_scope(arguments[0]) {
            None => (scopes, Err(JobError::ExpectedScopes)),
            Some(e) => if env < scopes.len() && e < scopes.len() {
                imported(
                    scopes.update(env as int, with_use(scopes[env as int], e)),
                    env,
                    arguments.skip(1),
                )
            } else {
                (scopes, Err(JobError::UnknownScope))
            },
        }
    }
}

/// The view of an optional name.
pub open spec fn name_view(name: Option<String>) -> Option<Seq<char>> {
    match name {
        Some(n) => Some(n@),
        None => None,
    }
}

/// Declaring a whole list in a scope that is not frozen succeeds where
/// every argument has a name. Afterwards a lookup from the scope gives,
/// for each name, the value of the last argument of that name, whether or
/// not the name was bound before; every other binding of the scope, its
/// imports, its parent and every other scope are as they were.
pub proof fn law_let_binds_all(scopes: Seq<ScopeModel>, env: usize, arguments: Seq<Argument>)
    requires
        env < scopes.len(),
        !scopes[env as int].readonly,
        forall|i: int| 0 <= i < arguments.len() ==> (#[trigger] arguments[i]).name.is_some(),
    ensures
        ({
            let after = declared(scopes, env, arguments).0;
            &&& declared(scopes, env, arguments).1.is_ok()
            &&& after.len() == scopes.len()
            &&& forall|j: int| 0 <= j < scopes.len() && j != env ==> #[trigger] after[j] == scopes[j]
            &&& after[env as int].uses == scopes[env as int].uses
            &&& after[env as int].parent == scopes[env as int].parent
            &&& !after[env as int].readonly
            &&& forall|i: int|
                0 <= i < arguments.len() && (forall|k: int|
                    i < k < arguments.len() ==> name_view((#[trigger] arguments[k]).name) != name_view(
                        arguments[i].name,
                    )) ==> {
                    let n = (#[trigger] arguments[i]).name.unwrap()@;
                    &&& after[env as int].bindings.contains_key(n)
                    &&& after[env as int].bindings[n] == arguments[i].value
                    &&& resolve(after, env, n) == Some(env)
                }
            &&& forall|n: Seq<char>|
                (forall|i: int|
                    0 <= i < arguments.len() ==> name_view((#[trigger] arguments[i]).name) != Some(n))
                    ==> (#[trigger] after[env as int].bindings.contains_key(n))
                    == scopes[env as int].bindings.contains_key(n) && (scopes[env as int].bindings.contains_key(
                    n,
                ) ==> after[env as int].bindings[n] == scopes[env as int].bindings[n])
        }),
    decreases arguments.len(),
{
    if arguments.len() > 0 {
        let first = arguments[0];
        let n0 = first.name.unwrap()@;
        let next = scopes.update(env as int, with_binding(scopes[env as int], n0, first.value));
        let rest = arguments.skip(1);
        assert forall|i: int| 0 <= i < rest.len() implies (#[trigger] rest[i]).name.is_some() by {
            assert(rest[i] == arguments[i + 1]);
        }
        law_let_binds_all(next, env, rest);
        let after = declared(scopes, env, arguments).0;
        assert(after == declared(next, env, rest).0);
        assert forall|i: int|
            0 <= i < arguments.len() && (forall|k: int|
                i < k < arguments.len() ==> name_view((#[trigger] arguments[k]).name) != name_view(
                    arguments[i].name,
                )) implies {
            let n = (#[trigger] arguments[i]).name.unwrap()@;
            &&& after[env as int].bindings.contains_key(n)
            &&& after[env as int].bindings[n] == arguments[i].value
            &&& resolve(after, env, n) == Some(env)
        } by {
            let n = arguments[i].name.unwrap()@;
            if i == 0 {
                assert forall|k: int| 0 <= k < rest.len() implies name_view((#[trigger] rest[k]).name)
                    != Some(n) by {
                    assert(rest[k] == arguments[k + 1]);
                }
                assert(after[env as int].bindings.contains_key(n) == next[env as int].bindings.contains_key(n));
            } else {
                assert(rest[i - 1] == arguments[i]);
                assert forall|k: int| i - 1 < k < rest.len() implies name_view((#[trigger] rest[k]).name)
                    != name_view(rest[i - 1].name) by {
                    assert(rest[k] == arguments[k + 1]);
                }
            }
            law_local_binding_wins(after, env, n);
        }
        assert forall|n: Seq<char>|
            (forall|i: int| 0 <= i < arguments.len() ==> name_view((#[trigger] arguments[i]).name) != Some(n))
            implies (#[trigger] after[env as int].bindings.contains_key(n))
            == scopes[env as int].bindings.contains_key(n) && (scopes[env as int].bindings.contains_key(n)
            ==> after[env as int].bindings[n] == scopes[env as int].bindings[n]) by {
            assert(name_view(arguments[0].name) != Some(n));
            assert forall|k: int| 0 <= k < rest.len() implies name_view((#[trigger] rest[k]).name) != Some(
                n,
            ) by {
                assert(rest[k] == arguments[k + 1]);
            }
            assert(after[env as int].bindings.contains_key(n) == next[env as int].bindings.contains_key(n));
        }
        assert forall|j: int| 0 <= j < scopes.len() && j != env implies #[trigger] after[j] == scopes[j] by {
            assert(after[j] == next[j]);
        }
    }
}

/// Assigning a whole list fails where one of its names resolves nowhere,
/// at whichever place it stands, and the name resolves nowhere afterwards
/// either: nothing is declared by assigning.
pub proof fn law_set_declares_nothing(scopes: Seq<ScopeModel>, env: usize, arguments: Seq<Argument>, at: int)
    requires
        0 <= at < arguments.len(),
        arguments[at].name.is_some(),
        resolve(scopes, env, arguments[at].name.unwrap()@).is_none(),
    ensures
        assigned(scopes, env, arguments).1.is_err(),
        resolve(assigned(scopes, env, arguments).0, env, arguments[at].name.unwrap()@).is_none(),
    decreases arguments.len(),
{
    let n = arguments[at].name.unwrap()@;
    match arguments[0].name {
        None => {},
        Some(first) => {
            if set_result(scopes, env, first@).is_ok() {
                let owner = resolve(scopes, env, first@).unwrap();
                law_search_sound(scopes, seq![env], none_visited(scopes.len()), first@);
                let next = scopes.update(
                    owner as int,
                    with_binding(scopes[owner as int], first@, arguments[0].value),
                );
                assert(same_shape(scopes, next, n));
                law_shape_decides(scopes, next, seq![env], none_visited(scopes.len()), n);
                assert(at > 0);
                let rest = arguments.skip(1);
                assert(rest[at - 1] == arguments[at]);
                law_set_declares_nothing(next, env, rest, at - 1);
            }
        },
    }
}

/// The scopes that the arguments give, in order, up to the first argument
/// that gives none.
pub open spec fn scopes_given(arguments: Seq<Argument>) -> Seq<usize>
    decreases arguments.len(),
{
    if arguments.len() == 0 {
        Seq::empty()
    } else {
        match used_scope(arguments[0]) {
            Some(e) => seq![e] + scopes_given(arguments.skip(1)),
            None => Seq::empty(),
        }
    }
}

/// Importing copies nothing and binds nothing: whatever the arguments and
/// however it ends, every scope keeps its bindings, its parent and its
/// state, and every scope but the importing one its imports. Where it
/// succeeds, the importing scope has the scopes given behind the imports it
/// had, in the order of the arguments.
pub proof fn law_use_copies_nothing(scopes: Seq<ScopeModel>, env: usize, arguments: Seq<Argument>)
    ensures
        ({
            let after = imported(scopes, env, arguments).0;
            &&& after.len() == scopes.len()
            &&& forall|j: int|
                0 <= j < scopes.len() ==> (#[trigger] after[j]).bindings == scopes[j].bindings
                    && after[j].parent == scopes[j].parent && after[j].readonly == scopes[j].readonly && (j
                    != env ==> after[j] == scopes[j])
            &&& imported(scopes, env, arguments).1.is_ok() && env < scopes.len() ==> after[env as int].uses
                == scopes[env as int].uses + scopes_given(arguments) && scopes_given(arguments).len()
                == arguments.len()
        }),
    decreases arguments.len(),
{
    if arguments.len() > 0 {
        match used_scope(arguments[0]) {
            None => {},
            Some(e) => {
                if env < scopes.len() && e < scopes.len() {
                    let next = scopes.update(env as int, with_use(scopes[env as int], e));
                    let rest = arguments.skip(1);
                    law_use_copies_nothing(next, env, rest);
                    let after = imported(scopes, env, arguments).0;
                    assert(after == imported(next, env, rest).0);
                    assert forall|j: int| 0 <= j < scopes.len() implies (#[trigger] after[j]).bindings
                        == scopes[j].bindings && after[j].parent == scopes[j].parent && after[j].readonly
                        == scopes[j].readonly && (j != env ==> after[j] == scopes[j]) by {
                        assert(after[j].bindings == next[j].bindings);
                    }
                    if imported(scopes, env, arguments).1.is_ok() {
                        assert(scopes[env as int].uses.push(e) + scopes_given(rest) =~= scopes[env as int].uses
                            + scopes_given(arguments));
                    }
                }
            },
        }
    } else {
        assert(scopes[env as int].uses + scopes_given(arguments) =~= scopes[env as int].uses);
    }
}

/// What a command of this namespace answers for the way its work ended.
pub open spec fn answer(end: Result<(), JobError>, r: Result<Value, JobError>) -> bool {
    match end {
        Ok(_) => r.is_ok() && r.unwrap() == Value::Empty,
        Err(e) => r.is_err() && r.unwrap_err() == e,
    }
}

/// Declares each argument under its name in the context's scope.
pub fn let_(scopes: &mut Scopes, context: &ExecutionContext) -> (r: Result<Value, JobError>)
    ensures
        final(scopes)@ == declared(old(scopes)@, context.env, context.arguments@).0,
        answer(declared(old(scopes)@, context.env, context.arguments@).1, r),
{
    let mut i: usize = 0;
    proof {
        assert(context.arguments@.skip(0) =~= context.arguments@);
    }
    while i < context.arguments.len()
        invariant
            i <= context.arguments@.len(),
            declared(old(scopes)@, context.env, context.arguments@) == declared(
                scopes@,
                context.env,
                context.arguments@.skip(i as int),
            ),
        decreases context.arguments.len() - i,
    {
        let argument = &context.arguments[i];
        proof {
            assert(context.arguments@.skip(i as int).skip(1) =~= context.arguments@.skip(i + 1));
        }
        match &argument.name {
            None => { return Err(JobError::MissingVariableName); },
            Some(name) => {
                match scopes.declare(context.env, name.as_str(), argument.value.duplicate()) {
                    Err(e) => { return Err(e); },
                    Ok(_) => {},
                }
            },
        }
        i += 1;
    }
    Ok(Value::Empty)
}

/// Assigns each argument to its name, which must be bound already.
pub fn set(scopes: &mut Scopes, context: &ExecutionContext) -> (r: Result<Value, JobError>)
    ensures
        final(scopes)@ == assigned(old(scopes)@, context.env, context.arguments@).0,
        answer(assigned(old(scopes)@, context.env, context.arguments@).1, r),
{
    let mut i: usize = 0;
    proof {
        assert(context.arguments@.skip(0) =~= context.arguments@);
    }
    while i < context.arguments.len()
        invariant
            i <= context.arguments@.len(),
            assigned(old(scopes)@, context.env, context.arguments@) == assigned(
                scopes@,
                context.env,
                context.arguments@.skip(i as int),
            ),
        decreases context.arguments.len() - i,
    {
        let argument = &context.arguments[i];
        proof {
            assert(context.arguments@.skip(i as int).skip(1) =~= context.arguments@.skip(i + 1));
        }
        match &argument.name {
            None => { return Err(JobError::MissingVariableName); },
            Some(name) => {
                match scopes.set(context.env, name.as_str(), argument.value.duplicate()) {
                    Err(e) => { return Err(e); },
                    Ok(_) => {},
                }
            },
        }
        i += 1;
    }
    Ok(Value::Empty)
}

/// Removes the variable that each argument names from the context's scope.
pub fn unset(scopes: &mut Scopes, context: &ExecutionContext) -> (r: Result<Value, JobError>)
    ensures
        final(scopes)@ == removed(old(scopes)@, context.env, context.arguments@).0,
        answer(removed(old(scopes)@, context.env, context.arguments@).1, r),
{
    let mut i: usize = 0;
    proof {
        assert(context.arguments@.skip(0) =~= context.arguments@);
    }
    while i < context.arguments.len()
        invariant
            i <= context.arguments@.len(),
            removed(old(scopes)@, context.env, context.arguments@) == removed(
                scopes@,
                context.env,
                context.arguments@.skip(i as int),
            ),
        decreases context.arguments.len() - i,
    {
        let argument = &context.arguments[i];
        proof {
            assert(context.arguments@.skip(i as int).skip(1) =~= context.arguments@.skip(i + 1));
        }
        match &argument.value {
            Value::String(s) => {
                if s.as_str().unicode_len() == 0 {
                    return Err(JobError::IllegalVariableName);
                }
                match scopes.remove(context.env, s.as_str()) {
                    Err(e) => { return Err(e); },
                    Ok(_) => {},
                }
            },
            _ => { return Err(JobError::IllegalVariableName); },
        }
        i += 1;
    }
    Ok(Value::Empty)
}

/// Imports the scope that each argument gives into the context's scope.
pub fn use_(scopes: &mut Scopes, context: &ExecutionContext) -> (r: Result<Value, JobError>)
    ensures
        final(scopes)@ == imported(old(scopes)@, context.env, context.arguments@).0,
        answer(imported(old(scopes)@, context.env, context.arguments@).1, r),
{
    let mut i: usize = 0;
    proof {
        assert(context.arguments@.skip(0) =~= context.arguments@);
    }
    while i < context.arguments.len()
        invariant
            i <= context.arguments@.len(),
            imported(old(scopes)@, context.env, context.arguments@) == imported(
                scopes@,
                context.env,
                context.arguments@.skip(i as int),
            ),
        decreases context.arguments.len() - i,
    {
        let argument = &context.arguments[i];
        proof {
            assert(context.arguments@.skip(i as int).skip(1) =~= context.arguments@.skip(i + 1));
        }
        let other = match (&argument.name, &argument.value) {
            (None, Value::Scope(e)) => *e,
            _ => { return Err(JobError::ExpectedScopes); },
        };
        match scopes.use_scope(context.env, other) {
            Err(e) => { return Err(e); },
            Ok(_) => {},
        }
        i += 1;
    }
    Ok(Value::Empty)
}

/// Whether `a` comes strictly before `b` in the order of a dictionary:
/// at the first place where they differ `a` has the smaller character, or
/// `a` ends there and `b` goes on.
pub open spec fn precedes(a: Seq<char>, b: Seq<char>) -> bool
    decreases a.len(),
{
    if b.len() == 0 {
        false
    } else if a.len() == 0 {
        true
    } else if (a[0] as u32) != (b[0] as u32) {
        (a[0] as u32) < (b[0] as u32)
    } else {
        precedes(a.skip(1), b.skip(1))
    }
}

/// No entry comes after one whose name it precedes.
pub open spec fn ordered(entries: Seq<Entry>) -> bool {
    forall|a: int, b: int|
        0 <= a < b < entries.len() ==> !precedes((#[trigger] entries[b]).name@, (#[trigger] entries[a]).name@)
}

/// Whether `x` is one of the first `upto` entries.
pub open spec fn among(entries: Seq<Entry>, upto: int, x: Entry) -> bool {
    exists|j: int| 0 <= j < upto && j < entries.len() && #[trigger] entries[j] == x
}

/// The name and the type's name that a row of the table of names holds,
/// where it is such a row: two cells, both strings.
pub open spec fn env_entry(row: Row) -> Option<(Seq<char>, Seq<char>)> {
    if row@.len() == 2 {
        match (row@[0], row@[1]) {
            (Value::String(n), Value::String(t)) => Some((n@, t@)),
            _ => None,
        }
    } else {
        None
    }
}

/// The row shows what the entry holds.
pub open spec fn shows(row: Row, entry: Entry) -> bool {
    env_entry(row) == Some((entry.name@, entry.value_type.spec_name()))
}

/// The rows are the table of the names seen from `start`: one row for each
/// name that resolves from there, with the name of the type of what it
/// resolves to, the rows in the order of their names.
pub open spec fn is_env_table(scopes: Seq<ScopeModel>, start: usize, rows: Seq<Row>) -> bool {
    exists|entries: Seq<Entry>|
        {
            &&& #[trigger] is_dump(scopes, start, entries)
            &&& ordered(entries)
            &&& rows.len() == entries.len()
            &&& forall|k: int| 0 <= k < rows.len() ==> shows(#[trigger] rows[k], entries[k])
        }
}

/// Of two names at most one precedes the other.
pub proof fn lemma_precedes_one_way(a: Seq<char>, b: Seq<char>)
    requires
        precedes(a, b),
    ensures
        !precedes(b, a),
    decreases a.len(),
{
    if a.len() > 0 && b.len() > 0 && (a[0] as u32) == (b[0] as u32) {
        lemma_precedes_one_way(a.skip(1), b.skip(1));
    }
}

/// A name between two others: where `a` precedes `c`, any `b` is preceded by
/// `a` or precedes `c`.
pub proof fn lemma_precedes_between(a: Seq<char>, b: Seq<char>, c: Seq<char>)
    requires
        precedes(a, c),
    ensures
        precedes(a, b) || precedes(b, c),
    decreases a.len(),
{
    if a.len() > 0 && b.len() > 0 && c.len() > 0 && (a[0] as u32) == (c[0] as u32) && (b[0] as u32) == (
        a[0] as u32
    ) {
        lemma_precedes_between(a.skip(1), b.skip(1), c.skip(1));
    }
}

fn name_precedes(a: &str, b: &str) -> (r: bool)
    ensures
        r == precedes(a@, b@),
{
    let n = a.unicode_len();
    let m = b.unicode_len();
    let mut i: usize = 0;
    proof {
        assert(a@.skip(0) =~= a@);
        assert(b@.skip(0) =~= b@);
    }
    while i < n && i < m
        invariant
            i <= n,
            i <= m,
            n == a@.len(),
            m == b@.len(),
            precedes(a@, b@) == precedes(a@.skip(i as int), b@.skip(i as int)),
        decreases n - i,
    {
        let x = a.get_char(i);
        let y = b.get_char(i);
        if (x as u32) != (y as u32) {
            return (x as u32) < (y as u32);
        }
        proof {
            assert(a@.skip(i as int).skip(1) =~= a@.skip(i + 1));
            assert(b@.skip(i as int).skip(1) =~= b@.skip(i + 1));
        }
        i += 1;
    }
    i < m
}

/// The entries in the order of their names.
pub fn sort_by_name(entries: &Vec<Entry>) -> (sorted: Vec<Entry>)
    ensures
        sorted@.len() == entries@.len(),
        sorted@.to_multiset() == entries@.to_multiset(),
        ordered(sorted@),
        forall|k: int| 0 <= k < sorted@.len() ==> among(entries@, entries@.len() as int, #[trigger] sorted@[k]),
        forall|j: int|
            0 <= j < entries@.len() ==> among(sorted@, sorted@.len() as int, #[trigger] entries@[j]),
        distinct_entries(entries@) ==> distinct_entries(sorted@),
{
    let mut sorted: Vec<Entry> = Vec::new();
    let mut i: usize = 0;
    proof {
        assert(entries@.take(0) =~= sorted@);
    }
    while i < entries.len()
        invariant
            i <= entries@.len(),
            sorted@.len() == i,
            sorted@.to_multiset() == entries@.take(i as int).to_multiset(),
            ordered(sorted@),
            forall|k: int| 0 <= k < sorted@.len() ==> among(entries@, i as int, #[trigger] sorted@[k]),
            forall|j: int| 0 <= j < i ==> among(sorted@, sorted@.len() as int, #[trigger] entries@[j]),
            distinct_entries(entries@) ==> distinct_entries(sorted@),
        decreases entries.len() - i,
    {
        let entry = Entry { name: entries[i].name.clone(), value_type: entries[i].value_type };
        let mut p: usize = 0;
        while p < sorted.len() && name_precedes(sorted[p].name.as_str(), entry.name.as_str())
            invariant
                p <= sorted@.len(),
                forall|k: int| 0 <= k < p ==> precedes((#[trigger] sorted@[k]).name@, entry.name@),
            decreases sorted.len() - p,
        {
            p += 1;
        }
        let ghost before = sorted@;
        sorted.insert(p, entry);
        proof {
            let after = sorted@;
            assert(after[p as int] == entries@[i as int]);
            assert(entries@.take(i + 1) =~= entries@.take(i as int).push(entries@[i as int]));
            to_multiset_insert(before, p as int, entries@[i as int]);
            to_multiset_build(entries@.take(i as int), entries@[i as int]);
            assert forall|k: int| 0 <= k < after.len() implies among(entries@, i + 1, #[trigger] after[k]) by {
                if k < p {
                    assert(after[k] == before[k]);
                    assert(among(entries@, i as int, before[k]));
                } else if k > p {
                    assert(after[k] == before[k - 1]);
                    assert(among(entries@, i as int, before[k - 1]));
                }
            }
            assert forall|j: int| 0 <= j < i + 1 implies among(after, after.len() as int, #[trigger] entries@[j]) by {
                if j < i {
                    assert(among(before, before.len() as int, entries@[j]));
                    let at = choose|at: int| 0 <= at < before.len() && #[trigger] before[at] == entries@[j];
                    if at < p {
                        assert(after[at] == before[at]);
                    } else {
                        assert(after[at + 1] == before[at]);
                    }
                } else {
                    assert(after[p as int] == entries@[j]);
                }
            }
            assert forall|a: int, b: int| 0 <= a < b < after.len() implies !precedes(
                (#[trigger] after[b]).name@,
                (#[trigger] after[a]).name@,
            ) by {
                if b == p {
                    assert(after[a] == before[a]);
                    lemma_precedes_one_way(before[a].name@, entry.name@);
                } else if a == p {
                    assert(after[b] == before[b - 1]);
                    if b - 1 > p {
                        assert(!precedes(before[b - 1].name@, before[p as int].name@));
                    }
                    if precedes(before[b - 1].name@, entry.name@) {
                        lemma_precedes_between(before[b - 1].name@, before[p as int].name@, entry.name@);
                    }
                } else {
                    let a0 = if a < p { a } else { a - 1 };
                    let b0 = if b < p { b } else { b - 1 };
                    assert(after[a] == before[a0]);
                    assert(after[b] == before[b0]);
                }
            }
            if distinct_entries(entries@) {
                assert forall|a: int, b: int|
                    0 <= a < after.len() && 0 <= b < after.len() && a != b implies (#[trigger] after[a]).name@
                    != (#[trigger] after[b]).name@ by {
                    let a0 = if a < p { a } else { a - 1 };
                    let b0 = if b < p { b } else { b - 1 };
                    if a != p {
                        assert(after[a] == before[a0]);
                        assert(among(entries@, i as int, before[a0]));
                    }
                    if b != p {
                        assert(after[b] == before[b0]);
                        assert(among(entries@, i as int, before[b0]));
                    }
                }
            }
        }
        i += 1;
    }
    proof {
        assert(entries@.take(i as int) =~= entries@);
    }
    sorted
}

/// Sorting keeps a dump a dump.
pub proof fn lemma_sorted_dump(scopes: Seq<ScopeModel>, start: usize, entries: Seq<Entry>, sorted: Seq<Entry>)
    requires
        is_dump(scopes, start, entries),
        distinct_entries(sorted),
        forall|k: int| 0 <= k < sorted.len() ==> among(entries, entries.len() as int, #[trigger] sorted[k]),
        forall|j: int| 0 <= j < entries.len() ==> among(sorted, sorted.len() as int, #[trigger] entries[j]),
    ensures
        is_dump(scopes, start, sorted),
{
    assert forall|k: int| 0 <= k < sorted.len() implies entry_ok(scopes, start, #[trigger] sorted[k]) by {
        assert(among(entries, entries.len() as int, sorted[k]));
    }
    assert forall|name: Seq<char>| #![trigger listed(sorted, name)]
        resolve(scopes, start, name).is_some() implies listed(sorted, name) by {
        assert(listed(entries, name));
        let j = choose|j: int| 0 <= j < entries.len() && (#[trigger] entries[j]).name@ == name;
        assert(among(sorted, sorted.len() as int, entries[j]));
    }
}

/// The schema of the table of names: two string columns, `name` and `type`.
pub fn env_type() -> (schema: Vec<ColumnType>)
    ensures
        schema@.len() == 2,
        schema@[0].name.is_some() && schema@[0].name.unwrap()@ == "name"@,
        schema@[1].name.is_some() && schema@[1].name.unwrap()@ == "type"@,
        schema@[0].cell_type == ValueType::String,
        schema@[1].cell_type == ValueType::String,
{
    let mut schema: Vec<ColumnType> = Vec::new();
    schema.push(ColumnType::new("name", ValueType::String));
    schema.push(ColumnType::new("type", ValueType::String));
    schema
}

/// The table of the names seen from the context's scope, sorted by name.
pub fn env(scopes: &Scopes, context: &ExecutionContext) -> (rows: Vec<Row>)
    ensures
        is_env_table(scopes@, context.env, rows@),
{
    let entries = scopes.dump(context.env);
    let sorted = sort_by_name(&entries);
    proof {
        lemma_sorted_dump(scopes@, context.env, entries@, sorted@);
    }
    let mut rows: Vec<Row> = Vec::new();
    let mut i: usize = 0;
    while i < sorted.len()
        invariant
            i <= sorted@.len(),
            rows@.len() == i,
            forall|k: int| 0 <= k < i ==> shows(#[trigger] rows@[k], sorted@[k]),
        decreases sorted.len() - i,
    {
        let mut cells: Vec<Value> = Vec::new();
        cells.push(Value::String(sorted[i].name.clone()));
        cells.push(Value::String(sorted[i].value_type.name()));
        rows.push(Row::new(cells));
        i += 1;
    }
    proof {
        assert(is_dump(scopes@, context.env, sorted@));
    }
    rows
}

/// The namespace of the variable commands, as a scope under `root`.
pub open spec fn var_namespace(root: usize) -> ScopeModel {
    with_binding(
        with_binding(
            with_binding(
                with_binding(
                    with_binding(fresh(Some(root)), "let"@, Value::Command(Builtin::VarLet)),
                    "set"@,
                    Value::Command(Builtin::VarSet),
                ),
                "unset"@,
                Value::Command(Builtin::VarUnset),
            ),
            "env"@,
            Value::Command(Builtin::VarEnv),
        ),
        "use"@,
        Value::Command(Builtin::VarUse),
    )
}

/// The namespace holds the five commands and nothing else. None of them
/// may block; the table of names leaves its output open, the other four
/// declare the empty value.
pub open spec fn holds_var_commands(namespace: ScopeModel) -> bool {
    &&& registers(namespace, "let"@, Builtin::VarLet, false, OutputType::Known(ValueType::Empty))
    &&& registers(namespace, "set"@, Builtin::VarSet, false, OutputType::Known(ValueType::Empty))
    &&& registers(namespace, "unset"@, Builtin::VarUnset, false, OutputType::Known(ValueType::Empty))
    &&& registers(namespace, "env"@, Builtin::VarEnv, false, OutputType::Unknown)
    &&& registers(namespace, "use"@, Builtin::VarUse, false, OutputType::Known(ValueType::Empty))
    &&& forall|name: Seq<char>| #[trigger]
        namespace.bindings.contains_key(name) ==> name == "let"@ || name == "set"@ || name == "unset"@
            || name == "env"@ || name == "use"@
}

/// The namespace of the variable commands is what `holds_var_commands`
/// says.
pub proof fn lemma_var_namespace(root: usize)
    ensures
        holds_var_commands(var_namespace(root)),
        var_namespace(root).parent == Some(root),
        !var_namespace(root).readonly,
{
    reveal_strlit("let");
    reveal_strlit("set");
    reveal_strlit("unset");
    reveal_strlit("env");
    reveal_strlit("use");
    assert("let"@[0] == 'l' && "set"@[0] == 's' && "unset"@[1] == 'n' && "env"@[0] == 'e' && "use"@[1] == 's');
    assert("unset"@.len() == 5 && "use"@.len() == 3);
}

/// Adds the namespace `var` with its five commands to `root`.
pub fn declare(scopes: &mut Scopes, root: usize) -> (r: Result<(), JobError>)
    ensures
        r == declare_result(old(scopes)@, root),
        final(scopes)@ == (if r.is_ok() {
            with_namespace(old(scopes)@, root, "var"@, var_namespace(root))
        } else {
            old(scopes)@
        }),
        r.is_ok() ==> holds_var_commands(final(scopes)@[old(scopes)@.len() as int]),
{
    proof {
        lemma_var_namespace(root);
    }
    let ns = match scopes.create_namespace(root, "var") {
        Ok(ns) => ns,
        Err(e) => { return Err(e); },
    };
    let ghost base = scopes@;
    proof {
        assert(base[ns as int] == fresh(Some(root)));
    }
    scopes.declare(ns, "let", Value::Command(Builtin::VarLet))?;
    scopes.declare(ns, "set", Value::Command(Builtin::VarSet))?;
    scopes.declare(ns, "unset", Value::Command(Builtin::VarUnset))?;
    scopes.declare(ns, "env", Value::Command(Builtin::VarEnv))?;
    scopes.declare(ns, "use", Value::Command(Builtin::VarUse))?;
    proof {
        assert(scopes@.len() == base.len());
        assert(scopes@[ns as int] == var_namespace(root));
        assert(scopes@[root as int] == base[root as int]);
        assert(scopes@ =~= with_namespace(old(scopes)@, root, "var"@, var_namespace(root)));
    }
    Ok(())
}

} // verus!
