use vstd::prelude::*;
use vstd::string::*;
use crate::lang::errors::JobError;
use crate::lang::value::{Value, ValueType};
use crate::lang::scope_model::{
    ScopeModel, declare_result, fresh, frozen, frozen_kept, law_search_sound,
    lemma_mark_visited, none_visited, pending, remove_result, resolve, reversed, search,
    set_result, unvisited, with_binding, with_namespace, with_use, without_binding,
};

verus! {

spec fn has_name(names: Seq<String>, name: Seq<char>) -> bool {
    exists|i: int| 0 <= i < names.len() && (#[trigger] names[i])@ == name
}

spec fn index_of(names: Seq<String>, name: Seq<char>) -> int {
    choose|i: int| 0 <= i < names.len() && (#[trigger] names[i])@ == name
}

spec fn distinct(names: Seq<String>) -> bool {
    forall|i: int, j: int|
        0 <= i < names.len() && 0 <= j < names.len() && i != j ==> (#[trigger] names[i])@
            != (#[trigger] names[j])@
}

spec fn table(names: Seq<String>, values: Seq<Value>) -> Map<Seq<char>, Value> {
    Map::new(|n: Seq<char>| has_name(names, n), |n: Seq<char>| values[index_of(names, n)])
}

proof fn lemma_index_of(names: Seq<String>, name: Seq<char>, i: int)
    requires
        distinct(names),
        0 <= i < names.len(),
        names[i]@ == name,
    ensures
        has_name(names, name),
        index_of(names, name) == i,
{
}

/// One scope: its bindings as two vectors of equal length, the names all
/// different.
struct Scope {
    names: Vec<String>,
    values: Vec<Value>,
    uses: Vec<usize>,
    parent: Option<usize>,
    readonly: bool,
}

impl View for Scope {
    type V = ScopeModel;

    closed spec fn view(&self) -> ScopeModel {
        ScopeModel {
            bindings: table(self.names@, self.values@),
            uses: self.uses@,
            parent: self.parent,
            readonly: self.readonly,
        }
    }
}

impl Scope {
    /// As many values as names, and no name twice.
    spec fn wf(&self) -> bool {
        &&& self.names@.len() == self.values@.len()
        &&& distinct(self.names@)
    }

    fn new(parent: Option<usize>) -> (scope: Scope)
        ensures
            scope.wf(),
            scope@ == fresh(parent),
    {
        let scope = Scope { names: Vec::new(), values: Vec::new(), uses: Vec::new(), parent, readonly: false };
        proof {
            assert(scope@.bindings =~= Map::<Seq<char>, Value>::empty());
        }
        scope
    }

    /// Puts on the stack what a search turns to after this scope.
    fn push_pending(&self, stack: &mut Vec<usize>)
        ensures
            final(stack)@ == old(stack)@ + pending(self@),
    {
        match self.parent {
            Some(p) => {
                stack.push(p);
            },
            None => {},
        }
        let ghost base = stack@;
        let mut j: usize = self.uses.len();
        while j > 0
            invariant
                j <= self.uses@.len(),
                stack@ == base + reversed(self.uses@).take(self.uses@.len() - j),
            decreases j,
        {
            j -= 1;
            stack.push(self.uses[j]);
            proof {
                assert(stack@ =~= base + reversed(self.uses@).take(self.uses@.len() - j));
            }
        }
        proof {
            assert(reversed(self.uses@).take(self.uses@.len() as int) =~= reversed(self.uses@));
            assert(stack@ =~= old(stack)@ + pending(self@));
        }
    }

    fn position(&self, key: &String) -> (r: Option<usize>)
        requires
            self.wf(),
        ensures
            r.is_some() == self@.bindings.contains_key(key@),
            match r {
                Some(i) => i < self.names@.len() && self.names@[i as int]@ == key@
                    && self@.bindings[key@] == self.values@[i as int],
                None => true,
            },
    {
        let mut i: usize = 0;
        while i < self.names.len()
            invariant
                i <= self.names.len(),
                self.wf(),
                forall|j: int| 0 <= j < i ==> (#[trigger] self.names@[j])@ != key@,
            decreases self.names.len() - i,
        {
            if self.names[i] == *key {
                proof {
                    lemma_index_of(self.names@, key@, i as int);
                }
                return Some(i);
            }
            i += 1;
        }
        None
    }

    fn put(&mut self, key: String, value: Value)
        requires
            old(self).wf(),
        ensures
            final(self).wf(),
            final(self)@ == with_binding(old(self)@, key@, value),
    {
        match self.position(&key) {
            Some(i) => {
                self.values.set(i, value);
                proof {
                    let names = self.names@;
                    assert forall|n: Seq<char>| has_name(names, n) implies #[trigger] table(
                        names,
                        self.values@,
                    )[n] == table(names, old(self).values@).insert(key@, value)[n] by {
                        let j = index_of(names, n);
                        if n == key@ {
                            lemma_index_of(names, n, i as int);
                        } else {
                            assert(j != i);
                        }
                    }
                    assert(self@.bindings =~= old(self)@.bindings.insert(key@, value));
                }
            },
            None => {
                proof {
                    assert(!has_name(self.names@, key@));
                }
                self.names.push(key);
                self.values.push(value);
                proof {
                    let before = old(self).names@;
                    let names = self.names@;
                    let last = before.len() as int;
                    assert(names[last]@ == key@);
                    assert forall|i: int, j: int|
                        0 <= i < names.len() && 0 <= j < names.len() && i != j implies (#[trigger] names[i])@
                        != (#[trigger] names[j])@ by {
                        if i < last {
                            assert(before[i] == names[i]);
                        }
                        if j < last {
                            assert(before[j] == names[j]);
                        }
                    }
                    lemma_index_of(names, key@, last);
                    let now = self@.bindings;
                    let wanted = old(self)@.bindings.insert(key@, value);
                    assert forall|n: Seq<char>| #[trigger]
                        now.dom().contains(n) == wanted.dom().contains(n) && (now.dom().contains(n)
                            ==> now[n] == wanted[n]) by {
                        if n != key@ {
                            if has_name(before, n) {
                                let j = index_of(before, n);
                                assert(names[j] == before[j]);
                                lemma_index_of(names, n, j);
                            }
                            if has_name(names, n) {
                                let j = index_of(names, n);
                                assert(j != last);
                                assert(before[j] == names[j]);
                            }
                        }
                    }
                    assert(self@.bindings =~= old(self)@.bindings.insert(key@, value));
                }
            },
        }
    }

    fn take_out(&mut self, key: &String) -> (found: bool)
        requires
            old(self).wf(),
        ensures
            final(self).wf(),
            found == old(self)@.bindings.contains_key(key@),
            final(self)@ == without_binding(old(self)@, key@),
    {
        match self.position(key) {
            Some(i) => {
                self.names.remove(i);
                self.values.remove(i);
                proof {
                    let before = old(self).names@;
                    let names = self.names@;
                    let at = i as int;
                    assert forall|a: int, b: int|
                        0 <= a < names.len() && 0 <= b < names.len() && a != b implies (#[trigger] names[a])@
                        != (#[trigger] names[b])@ by {
                        let a0 = if a < at { a } else { a + 1 };
                        let b0 = if b < at { b } else { b + 1 };
                        assert(names[a] == before[a0]);
                        assert(names[b] == before[b0]);
                    }
                    assert forall|n: Seq<char>| has_name(names, n) implies #[trigger] has_name(before, n)
                        && n != key@ && table(names, self.values@)[n] == table(
                        before,
                        old(self).values@,
                    )[n] by {
                        let j = index_of(names, n);
                        let j0 = if j < at { j } else { j + 1 };
                        assert(names[j] == before[j0]);
                        lemma_index_of(before, n, j0);
                    }
                    assert forall|n: Seq<char>| has_name(before, n) && n != key@ implies #[trigger] has_name(
                        names,
                        n,
                    ) by {
                        let j = index_of(before, n);
                        assert(j != at);
                        let j1 = if j < at { j } else { j - 1 };
                        assert(names[j1] == before[j]);
                    }
                    assert(self@.bindings =~= old(self)@.bindings.remove(key@));
                }
                true
            },
            None => {
                proof {
                    assert(self@.bindings =~= old(self)@.bindings.remove(key@));
                }
                false
            },
        }
    }
}

/// One line of a dump: a name and the type of the value it stands for.
#[derive(Clone, Debug, PartialEq, Eq)]
pub struct Entry {
    pub name: String,
    pub value_type: ValueType,
}

/// Whether some entry has the name.
pub open spec fn listed(entries: Seq<Entry>, name: Seq<char>) -> bool {
    exists|k: int| 0 <= k < entries.len() && (#[trigger] entries[k]).name@ == name
}

/// No two entries have the same name.
pub open spec fn distinct_entries(entries: Seq<Entry>) -> bool {
    forall|a: int, b: int|
        0 <= a < entries.len() && 0 <= b < entries.len() && a != b ==> (#[trigger] entries[a]).name@
            != (#[trigger] entries[b]).name@
}

/// The entry's name resolves from `start`, and the entry holds the type of
/// the value that a lookup of the name gives.
pub open spec fn entry_ok(scopes: Seq<ScopeModel>, start: usize, entry: Entry) -> bool {
    match resolve(scopes, start, entry.name@) {
        Some(owner) => owner < scopes.len() && scopes[owner as int].bindings.contains_key(entry.name@)
            && entry.value_type == scopes[owner as int].bindings[entry.name@].spec_value_type(),
        None => false,
    }
}

/// The entries are the dump of what is seen from `start`: each name that
/// resolves from there once, with the type of what it resolves to, and no
/// other name.
pub open spec fn is_dump(scopes: Seq<ScopeModel>, start: usize, entries: Seq<Entry>) -> bool {
    &&& distinct_entries(entries)
    &&& forall|k: int| 0 <= k < entries.len() ==> entry_ok(scopes, start, #[trigger] entries[k])
    &&& forall|name: Seq<char>| #![trigger listed(entries, name)]
        resolve(scopes, start, name).is_some() ==> listed(entries, name)
}

/// Marks for `n` scopes, none of them entered.
fn unmarked(n: usize) -> (visited: Vec<bool>)
    ensures
        visited@ == none_visited(n as nat),
{
    let mut visited: Vec<bool> = Vec::new();
    let mut k: usize = 0;
    while k < n
        invariant
            k <= n,
            visited@ =~= none_visited(k as nat),
        decreases n - k,
    {
        visited.push(false);
        k += 1;
    }
    visited
}

fn is_listed(entries: &Vec<Entry>, key: &String) -> (found: bool)
    ensures
        found == listed(entries@, key@),
{
    let mut i: usize = 0;
    while i < entries.len()
        invariant
            i <= entries.len(),
            forall|k: int| 0 <= k < i ==> (#[trigger] entries@[k]).name@ != key@,
        decreases entries.len() - i,
    {
        if entries[i].name == *key {
            return true;
        }
        i += 1;
    }
    false
}

/// The arena of scopes. A scope is named by its index, which it keeps for
/// the arena's lifetime.
pub struct Scopes {
    scopes: Vec<Scope>,
}

impl View for Scopes {
    type V = Seq<ScopeModel>;

    closed spec fn view(&self) -> Seq<ScopeModel> {
        self.scopes@.map_values(|s: Scope| s@)
    }
}

impl Scopes {
    /// Every scope keeps its names apart.
    #[verifier::type_invariant]
    spec fn wf(self) -> bool {
        forall|i: int| 0 <= i < self.scopes@.len() ==> (#[trigger] self.scopes@[i]).wf()
    }

    /// An arena without scopes.
    pub fn new() -> (arena: Scopes)
        ensures
            arena@ == Seq::<ScopeModel>::empty(),
    {
        let arena = Scopes { scopes: Vec::new() };
        proof {
            assert(arena@ =~= Seq::<ScopeModel>::empty());
        }
        arena
    }

    /// The number of scopes.
    pub fn len(&self) -> (n: usize)
        ensures
            n == self@.len(),
    {
        self.scopes.len()
    }

    /// Adds a scope under `parent` and gives its index.
    pub fn create(&mut self, parent: Option<usize>) -> (id: usize)
        ensures
            id == old(self)@.len(),
            final(self)@ == old(self)@.push(fresh(parent)),
            frozen_kept(old(self)@, final(self)@),
    {
        proof {
            use_type_invariant(&*self);
        }
        let id = self.scopes.len();
        let mut scopes: Vec<Scope> = Vec::new();
        std::mem::swap(&mut scopes, &mut self.scopes);
        scopes.push(Scope::new(parent));
        self.scopes = scopes;
        proof {
            assert(self@ =~= old(self)@.push(fresh(parent)));
        }
        id
    }

    /// Whether the scope is frozen; `false` for an index that names none.
    pub fn is_readonly(&self, id: usize) -> (b: bool)
        ensures
            b == (id < self@.len() && self@[id as int].readonly),
    {
        id < self.scopes.len() && self.scopes[id].readonly
    }

    /// Finds the scope in which a lookup of `name` from `start` ends.
    pub fn resolve(&self, start: usize, name: &str) -> (r: Option<usize>)
        ensures
            r == resolve(self@, start, name@),
            match r {
                Some(owner) => owner < self@.len() && self@[owner as int].bindings.contains_key(name@),
                None => true,
            },
    {
        proof {
            use_type_invariant(&*self);
        }
        let key = String::from_str(name);
        let n = self.scopes.len();
        let mut visited = unmarked(n);
        let mut stack: Vec<usize> = Vec::new();
        stack.push(start);
        proof {
            assert(stack@ =~= seq![start]);
        }
        while stack.len() > 0
            invariant
                self.wf(),
                n == self.scopes@.len(),
                visited@.len() == n,
                key@ == name@,
                search(self@, stack@, visited@, name@) == resolve(self@, start, name@),
            decreases unvisited(visited@), stack@.len(),
        {
            let ghost before = stack@;
            let id = stack.pop().unwrap();
            if id < n && !visited[id] {
                if self.scopes[id].position(&key).is_some() {
                    proof {
                        law_search_sound(self@, before, visited@, name@);
                    }
                    return Some(id);
                }
                proof {
                    lemma_mark_visited(visited@, id as int);
                }
                visited.set(id, true);
                self.scopes[id].push_pending(&mut stack);
            }
        }
        None
    }

    /// Lists every name that a lookup from `start` can find, each once,
    /// with the type of the value that the lookup gives. The entries come in
    /// the order in which the scopes are searched, which sorts nothing.
    pub fn dump(&self, start: usize) -> (entries: Vec<Entry>)
        ensures
            is_dump(self@, start, entries@),
    {
        proof {
            use_type_invariant(&*self);
        }
        let n = self.scopes.len();
        let mut visited = unmarked(n);
        let mut stack: Vec<usize> = Vec::new();
        stack.push(start);
        let mut out: Vec<Entry> = Vec::new();
        proof {
            assert(stack@ =~= seq![start]);
        }
        while stack.len() > 0
            invariant
                self.wf(),
                n == self.scopes@.len(),
                visited@.len() == n,
                distinct_entries(out@),
                forall|k: int| 0 <= k < out@.len() ==> entry_ok(self@, start, #[trigger] out@[k]),
                forall|name: Seq<char>| #![trigger listed(out@, name)]
                    !listed(out@, name) ==> search(self@, stack@, visited@, name) == resolve(
                        self@,
                        start,
                        name,
                    ),
            decreases unvisited(visited@), stack@.len(),
        {
            let ghost before = stack@;
            let id = stack.pop().unwrap();
            let ghost rest = stack@;
            if id < n && !visited[id] {
                let scope = &self.scopes[id];
                let mut j: usize = 0;
                while j < scope.names.len()
                    invariant
                        j <= scope.names@.len(),
                        self.wf(),
                        scope.wf(),
                        *scope == self.scopes@[id as int],
                        n == self.scopes@.len(),
                        visited@.len() == n,
                        id < n,
                        !visited@[id as int],
                        before.len() > 0,
                        before.last() == id,
                        distinct_entries(out@),
                        forall|k: int| 0 <= k < out@.len() ==> entry_ok(self@, start, #[trigger] out@[k]),
                        forall|name: Seq<char>| #![trigger listed(out@, name)]
                            !listed(out@, name) ==> search(self@, before, visited@, name) == resolve(
                                self@,
                                start,
                                name,
                            ),
                        forall|i: int| 0 <= i < j ==> listed(out@, (#[trigger] scope.names@[i])@),
                    decreases scope.names.len() - j,
                {
                    if !is_listed(&out, &scope.names[j]) {
                        let ghost shown = out@;
                        let entry = Entry {
                            name: scope.names[j].clone(),
                            value_type: scope.values[j].value_type(),
                        };
                        proof {
                            lemma_index_of(scope.names@, scope.names@[j as int]@, j as int);
                            assert(self@[id as int].bindings.contains_key(entry.name@));
                            assert(search(self@, before, visited@, entry.name@) == Some(id));
                            assert(entry_ok(self@, start, entry));
                        }
                        out.push(entry);
                        proof {
                            assert forall|name: Seq<char>| listed(shown, name) implies listed(out@, name) by {
                                let at = choose|k: int| 0 <= k < shown.len() && (#[trigger] shown[k]).name@ == name;
                                assert(out@[at] == shown[at]);
                            }
                            assert(out@[shown.len() as int].name@ == scope.names@[j as int]@);
                            assert forall|name: Seq<char>| #![trigger listed(out@, name)]
                                !listed(out@, name) implies search(self@, before, visited@, name) == resolve(
                                self@,
                                start,
                                name,
                            ) by {
                                assert(!listed(shown, name));
                            }
                            assert forall|a: int, b: int|
                                0 <= a < out@.len() && 0 <= b < out@.len() && a != b implies (#[trigger] out@[a]).name@
                                != (#[trigger] out@[b]).name@ by {
                                if a < shown.len() {
                                    assert(out@[a] == shown[a]);
                                }
                                if b < shown.len() {
                                    assert(out@[b] == shown[b]);
                                }
                            }
                        }
                    }
                    j += 1;
                }
                proof {
                    lemma_mark_visited(visited@, id as int);
                    assert forall|name: Seq<char>| #![trigger listed(out@, name)]
                        !listed(out@, name) implies search(
                        self@,
                        rest + pending(self@[id as int]),
                        visited@.update(id as int, true),
                        name,
                    ) == resolve(self@, start, name) by {
                        if has_name(scope.names@, name) {
                            let at = index_of(scope.names@, name);
                            assert(listed(out@, scope.names@[at]@));
                        }
                        assert(!self@[id as int].bindings.contains_key(name));
                        assert(search(self@, before, visited@, name) == resolve(self@, start, name));
                    }
                }
                visited.set(id, true);
                scope.push_pending(&mut stack);
            } else {
                proof {
                    assert forall|name: Seq<char>| #![trigger listed(out@, name)]
                        !listed(out@, name) implies search(self@, rest, visited@, name) == resolve(
                        self@,
                        start,
                        name,
                    ) by {
                        assert(search(self@, before, visited@, name) == resolve(self@, start, name));
                    }
                }
            }
        }
        out
    }

    /// Looks `name` up from scope `id`: the scope's own binding, else that of
    /// the first import that resolves it, else that of the parent chain.
    pub fn lookup(&self, id: usize, name: &str) -> (r: Result<&Value, JobError>)
        ensures
            match resolve(self@, id, name@) {
                Some(owner) => r.is_ok() && *r.unwrap() == self@[owner as int].bindings[name@],
                None => r.is_err() && r.unwrap_err() == JobError::UnknownName,
            },
    {
        proof {
            use_type_invariant(&*self);
        }
        match self.resolve(id, name) {
            Some(owner) => {
                let key = String::from_str(name);
                match self.scopes[owner].position(&key) {
                    Some(i) => Ok(&self.scopes[owner].values[i]),
                    None => Err(JobError::UnknownName),
                }
            },
            None => Err(JobError::UnknownName),
        }
    }

    /// Binds `name` to `value` in scope `id` itself, over any binding the
    /// scope has for it. A frozen scope refuses.
    pub fn declare(&mut self, id: usize, name: &str, value: Value) -> (r: Result<(), JobError>)
        ensures
            frozen_kept(old(self)@, final(self)@),
            r == declare_result(old(self)@, id),
            final(self)@ == (if r.is_ok() {
                old(self)@.update(id as int, with_binding(old(self)@[id as int], name@, value))
            } else {
                old(self)@
            }),
    {
        proof {
            use_type_invariant(&*self);
        }
        if id >= self.scopes.len() {
            return Err(JobError::UnknownScope);
        }
        if self.scopes[id].readonly {
            return Err(JobError::ReadonlyScope);
        }
        let mut scopes: Vec<Scope> = Vec::new();
        std::mem::swap(&mut scopes, &mut self.scopes);
        let mut scope = Scope::new(None);
        scopes.set_and_swap(id, &mut scope);
        scope.put(String::from_str(name), value);
        scopes.set_and_swap(id, &mut scope);
        self.scopes = scopes;
        proof {
            assert(self@ =~= old(self)@.update(id as int, with_binding(old(self)@[id as int], name@, value)));
        }
        Ok(())
    }

    /// Gives a name that is already bound a new value, in the scope where a
    /// lookup from `id` finds it. Nothing is declared by this.
    pub fn set(&mut self, id: usize, name: &str, value: Value) -> (r: Result<(), JobError>)
        ensures
            frozen_kept(old(self)@, final(self)@),
            r == set_result(old(self)@, id, name@),
            final(self)@ == (if r.is_ok() {
                let owner = resolve(old(self)@, id, name@).unwrap();
                old(self)@.update(owner as int, with_binding(old(self)@[owner as int], name@, value))
            } else {
                old(self)@
            }),
    {
        proof {
            use_type_invariant(&*self);
        }
        if id >= self.scopes.len() {
            return Err(JobError::UnknownScope);
        }
        if self.scopes[id].readonly {
            return Err(JobError::ReadonlyScope);
        }
        match self.resolve(id, name) {
            None => Err(JobError::UnknownName),
            Some(owner) => {
                if self.scopes[owner].readonly {
                    return Err(JobError::ReadonlyScope);
                }
                let mut scopes: Vec<Scope> = Vec::new();
                std::mem::swap(&mut scopes, &mut self.scopes);
                let mut scope = Scope::new(None);
                scopes.set_and_swap(owner, &mut scope);
                scope.put(String::from_str(name), value);
                scopes.set_and_swap(owner, &mut scope);
                self.scopes = scopes;
                proof {
                    assert(self@ =~= old(self)@.update(
                        owner as int,
                        with_binding(old(self)@[owner as int], name@, value),
                    ));
                }
                Ok(())
            },
        }
    }

    /// Takes the binding of `name` out of scope `id` itself.
    pub fn remove(&mut self, id: usize, name: &str) -> (r: Result<(), JobError>)
        ensures
            frozen_kept(old(self)@, final(self)@),
            r == remove_result(old(self)@, id, name@),
            final(self)@ == (if r.is_ok() {
                old(self)@.update(id as int, without_binding(old(self)@[id as int], name@))
            } else {
                old(self)@
            }),
    {
        proof {
            use_type_invariant(&*self);
        }
        if id >= self.scopes.len() {
            return Err(JobError::UnknownScope);
        }
        if self.scopes[id].readonly {
            return Err(JobError::ReadonlyScope);
        }
        let key = String::from_str(name);
        let mut scopes: Vec<Scope> = Vec::new();
        std::mem::swap(&mut scopes, &mut self.scopes);
        let mut scope = Scope::new(None);
        scopes.set_and_swap(id, &mut scope);
        let found = scope.take_out(&key);
        scopes.set_and_swap(id, &mut scope);
        self.scopes = scopes;
        if found {
            proof {
                assert(self@ =~= old(self)@.update(id as int, without_binding(old(self)@[id as int], name@)));
            }
            Ok(())
        } else {
            proof {
                assert(old(self)@[id as int].bindings.remove(name@) =~= old(self)@[id as int].bindings);
                assert(self@ =~= old(self)@);
            }
            Err(JobError::UnknownName)
        }
    }

    /// Puts `other` behind the imports of scope `id`. Nothing is copied:
    /// lookups go through to `other` as it is when they are made.
    pub fn use_scope(&mut self, id: usize, other: usize) -> (r: Result<(), JobError>)
        ensures
            frozen_kept(old(self)@, final(self)@),
            r.is_ok() <==> id < old(self)@.len() && other < old(self)@.len(),
            r.is_err() ==> r == Err::<(), JobError>(JobError::UnknownScope),
            final(self)@ == (if r.is_ok() {
                old(self)@.update(id as int, with_use(old(self)@[id as int], other))
            } else {
                old(self)@
            }),
    {
        proof {
            use_type_invariant(&*self);
        }
        if id >= self.scopes.len() || other >= self.scopes.len() {
            return Err(JobError::UnknownScope);
        }
        let mut scopes: Vec<Scope> = Vec::new();
        std::mem::swap(&mut scopes, &mut self.scopes);
        let mut scope = Scope::new(None);
        scopes.set_and_swap(id, &mut scope);
        scope.uses.push(other);
        scopes.set_and_swap(id, &mut scope);
        self.scopes = scopes;
        proof {
            assert(self@ =~= old(self)@.update(id as int, with_use(old(self)@[id as int], other)));
        }
        Ok(())
    }

    /// Adds a scope under `root` and binds `name` to it in `root`.
    pub fn create_namespace(&mut self, root: usize, name: &str) -> (r: Result<usize, JobError>)
        ensures
            frozen_kept(old(self)@, final(self)@),
            match declare_result(old(self)@, root) {
                Err(e) => r == Err::<usize, JobError>(e) && final(self)@ == old(self)@,
                Ok(_) => r.is_ok() && r.unwrap() == old(self)@.len() && final(self)@
                    == with_namespace(old(self)@, root, name@, fresh(Some(root))),
            },
    {
        proof {
            use_type_invariant(&*self);
        }
        if root >= self.scopes.len() {
            return Err(JobError::UnknownScope);
        }
        if self.scopes[root].readonly {
            return Err(JobError::ReadonlyScope);
        }
        let id = self.create(Some(root));
        match self.declare(root, name, Value::Scope(id)) {
            Ok(_) => {
                proof {
                    assert(self@ =~= with_namespace(old(self)@, root, name@, fresh(Some(root))));
                }
                Ok(id)
            },
            Err(e) => Err(e),
        }
    }

    /// Freezes scope `id`, for good. Freezing a frozen scope changes nothing.
    pub fn readonly(&mut self, id: usize) -> (r: Result<(), JobError>)
        ensures
            frozen_kept(old(self)@, final(self)@),
            r.is_ok() <==> id < old(self)@.len(),
            r.is_err() ==> r == Err::<(), JobError>(JobError::UnknownScope),
            final(self)@ == (if r.is_ok() {
                old(self)@.update(id as int, frozen(old(self)@[id as int]))
            } else {
                old(self)@
            }),
    {
        proof {
            use_type_invariant(&*self);
        }
        if id >= self.scopes.len() {
            return Err(JobError::UnknownScope);
        }
        let mut scopes: Vec<Scope> = Vec::new();
        std::mem::swap(&mut scopes, &mut self.scopes);
        let mut scope = Scope::new(None);
        scopes.set_and_swap(id, &mut scope);
        scope.readonly = true;
        scopes.set_and_swap(id, &mut scope);
        self.scopes = scopes;
        proof {
            assert(self@ =~= old(self)@.update(id as int, frozen(old(self)@[id as int])));
        }
        Ok(())
    }
}

} // verus!
