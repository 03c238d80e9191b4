//! The variable environment of the interpreter.

use crate::text::same_text;
use vstd::prelude::*;

verus! {

/// Whether no name occurs twice among the bindings.
pub open spec fn distinct_names(s: Seq<(String, i64)>) -> bool {
    forall|i: int, j: int| 0 <= i < s.len() && 0 <= j < s.len() && i != j ==> s[i].0@ != s[j].0@
}

/// Whether `name` is bound at position `i`.
pub open spec fn bound_at(s: Seq<(String, i64)>, name: Seq<char>, i: int) -> bool {
    0 <= i < s.len() && s[i].0@ == name
}

/// The finite map that a list of bindings with distinct names stands for.
pub open spec fn bindings_map(s: Seq<(String, i64)>) -> Map<Seq<char>, i64> {
    Map::new(
        |name: Seq<char>| exists|i: int| bound_at(s, name, i),
        |name: Seq<char>| s[choose|i: int| bound_at(s, name, i)].1,
    )
}

/// Variable bindings, kept in the order in which the names were first assigned.
#[derive(Debug)]
pub struct Environment {
    variables: Vec<(String, i64)>,
}

impl View for Environment {
    type V = Map<Seq<char>, i64>;

    closed spec fn view(&self) -> Map<Seq<char>, i64> {
        bindings_map(self.variables@)
    }
}

impl Environment {
    #[verifier::type_invariant]
    spec fn well_formed(&self) -> bool {
        distinct_names(self.variables@)
    }

    /// An environment without bindings.
    pub fn new() -> (env: Environment)
        ensures
            env@ == Map::<Seq<char>, i64>::empty(),
    {
        let env = Environment { variables: Vec::new() };
        assert(env@ =~= Map::<Seq<char>, i64>::empty());
        env
    }

    /// The number of bound names.
    pub fn len(&self) -> (n: usize)
        ensures
            n == self@.len(),
            self@.dom().finite(),
    {
        proof {
            use_type_invariant(self);
            lemma_bindings_len(self.variables@);
        }
        self.variables.len()
    }

    /// Whether `name` is bound.
    pub fn contains_key(&self, name: &str) -> (found: bool)
        ensures
            found == self@.contains_key(name@),
    {
        self.get(name).is_some()
    }

    /// The bindings as pairs, in the order in which the names were first assigned.
    pub fn entries(&self) -> (pairs: Vec<(String, i64)>)
        ensures
            distinct_names(pairs@),
            bindings_map(pairs@) == self@,
    {
        proof {
            use_type_invariant(self);
        }
        copy_bindings(&self.variables)
    }

    /// The value bound to `name`, if any.
    pub fn get(&self, name: &str) -> (value: Option<i64>)
        ensures
            value == if self@.contains_key(name@) {
                Some(self@[name@])
            } else {
                None
            },
    {
        proof {
            use_type_invariant(self);
        }
        let mut i: usize = 0;
        while i < self.variables.len()
            invariant
                i <= self.variables.len(),
                distinct_names(self.variables@),
                forall|j: int| 0 <= j < i ==> !bound_at(self.variables@, name@, j),
            decreases self.variables.len() - i,
        {
            if same_text(self.variables[i].0.as_str(), name) {
                assert(bound_at(self.variables@, name@, i as int));
                return Some(self.variables[i].1);
            }
            i += 1;
        }
        None
    }

    /// Binds `name` to `value`, replacing an earlier binding of the same name.
    pub fn set(&mut self, name: String, value: i64)
        ensures
            final(self)@ == old(self)@.insert(name@, value),
    {
        proof {
            use_type_invariant(&*self);
        }
        let mut bindings: Vec<(String, i64)> = Vec::new();
        core::mem::swap(&mut self.variables, &mut bindings);
        put_binding(&mut bindings, name, value);
        core::mem::swap(&mut self.variables, &mut bindings);
    }
}

impl Clone for Environment {
    /// A copy with the same bindings.
    fn clone(&self) -> (copy: Environment)
        ensures
            copy@ == self@,
    {
        proof {
            use_type_invariant(self);
        }
        Environment { variables: copy_bindings(&self.variables) }
    }
}

/// A copy of a list of bindings.
fn copy_bindings(bindings: &Vec<(String, i64)>) -> (copy: Vec<(String, i64)>)
    ensures
        copy@ == bindings@,
{
    let mut copy: Vec<(String, i64)> = Vec::new();
    let mut i: usize = 0;
    while i < bindings.len()
        invariant
            i <= bindings.len(),
            copy@ == bindings@.subrange(0, i as int),
        decreases bindings.len() - i,
    {
        copy.push((bindings[i].0.clone(), bindings[i].1));
        assert(copy@ =~= bindings@.subrange(0, i + 1));
        i += 1;
    }
    assert(bindings@.subrange(0, i as int) =~= bindings@);
    copy
}

/// A list with distinct names stands for a map with as many keys as the list is long.
pub proof fn lemma_bindings_len(s: Seq<(String, i64)>)
    requires
        distinct_names(s),
    ensures
        bindings_map(s).dom().finite(),
        bindings_map(s).dom().len() == s.len(),
    decreases s.len(),
{
    if s.len() == 0 {
        assert(bindings_map(s).dom() =~= Set::<Seq<char>>::empty());
    } else {
        let front = s.drop_last();
        let last = s.last();
        lemma_bindings_len(front);
        assert forall|k: Seq<char>| #[trigger]
            bindings_map(s).dom().contains(k) <==> bindings_map(front).dom().insert(
                last.0@,
            ).contains(k) by {
            if bindings_map(s).dom().contains(k) {
                let j = choose|j: int| bound_at(s, k, j);
                if j < s.len() - 1 {
                    assert(bound_at(front, k, j));
                }
            }
            if bindings_map(front).dom().contains(k) {
                let j = choose|j: int| bound_at(front, k, j);
                assert(bound_at(s, k, j));
            }
            if k == last.0@ {
                assert(bound_at(s, k, s.len() - 1));
            }
        }
        assert(bindings_map(s).dom() =~= bindings_map(front).dom().insert(last.0@));
        if bindings_map(front).dom().contains(last.0@) {
            let j = choose|j: int| bound_at(front, last.0@, j);
            assert(s[j].0@ == s[s.len() - 1].0@);
        }
    }
}

/// In a list with distinct names, the binding at position `i` is the one the map holds.
pub proof fn lemma_binding_at(s: Seq<(String, i64)>, i: int)
    requires
        distinct_names(s),
        0 <= i < s.len(),
    ensures
        bindings_map(s).contains_key(s[i].0@),
        bindings_map(s)[s[i].0@] == s[i].1,
{
    let name = s[i].0@;
    assert(bound_at(s, name, i));
    let j = choose|j: int| bound_at(s, name, j);
    assert(j == i);
}

/// Binds `name` to `value` in a list of bindings with distinct names: in place where the
/// name is already bound, at the end otherwise.
fn put_binding(bindings: &mut Vec<(String, i64)>, name: String, value: i64)
    requires
        distinct_names(old(bindings)@),
    ensures
        distinct_names(final(bindings)@),
        bindings_map(final(bindings)@) == bindings_map(old(bindings)@).insert(name@, value),
{
    let ghost before = bindings@;
    let ghost key = name@;
    let mut i: usize = 0;
    while i < bindings.len()
        invariant
            i <= bindings.len(),
            bindings@ == before,
            before == old(bindings)@,
            key == name@,
            distinct_names(before),
            forall|j: int| 0 <= j < i ==> !bound_at(before, key, j),
        decreases bindings.len() - i,
    {
        if same_text(bindings[i].0.as_str(), name.as_str()) {
            bindings[i] = (name, value);
            proof {
                let after = bindings@;
                assert(after == before.update(i as int, (name, value)));
                assert forall|j: int| 0 <= j < after.len() implies #[trigger] after[j].0@
                    == before[j].0@ by {}
                assert(distinct_names(after));
                let want = bindings_map(before).insert(key, value);
                assert forall|k: Seq<char>| #[trigger]
                    bindings_map(after).contains_key(k) <==> want.contains_key(k) by {
                    if bindings_map(after).contains_key(k) {
                        let j = choose|j: int| bound_at(after, k, j);
                        assert(bound_at(before, k, j));
                    }
                    if bindings_map(before).contains_key(k) {
                        let j = choose|j: int| bound_at(before, k, j);
                        assert(bound_at(after, k, j));
                    }
                    if k == key {
                        assert(bound_at(after, k, i as int));
                    }
                }
                assert forall|k: Seq<char>| bindings_map(after).contains_key(k) implies #[trigger]
                    bindings_map(after)[k] == want[k] by {
                    let j = choose|j: int| bound_at(after, k, j);
                    lemma_binding_at(after, j);
                    if k != key {
                        assert(bound_at(before, k, j));
                        lemma_binding_at(before, j);
                    } else {
                        assert(bound_at(after, k, i as int));
                    }
                }
                assert(bindings_map(after) =~= want);
            }
            return ;
        }
        i += 1;
    }
    bindings.push((name, value));
    proof {
        let after = bindings@;
        let last = before.len() as int;
        assert(after == before.push((name, value)));
        assert(bound_at(after, key, last));
        assert forall|a: int, b: int|
            0 <= a < after.len() && 0 <= b < after.len() && a != b implies after[a].0@
            != after[b].0@ by {
            if a == last {
                assert(!bound_at(before, key, b));
            } else if b == last {
                assert(!bound_at(before, key, a));
            }
        }
        let want = bindings_map(before).insert(key, value);
        assert forall|k: Seq<char>| #[trigger]
            bindings_map(after).contains_key(k) <==> want.contains_key(k) by {
            if bindings_map(after).contains_key(k) {
                let j = choose|j: int| bound_at(after, k, j);
                if j != last {
                    assert(bound_at(before, k, j));
                }
            }
            if bindings_map(before).contains_key(k) {
                let j = choose|j: int| bound_at(before, k, j);
                assert(bound_at(after, k, j));
            }
        }
        assert forall|k: Seq<char>| bindings_map(after).contains_key(k) implies #[trigger]
            bindings_map(after)[k] == want[k] by {
            let j = choose|j: int| bound_at(after, k, j);
            lemma_binding_at(after, j);
            if k != key {
                assert(j != last);
                assert(bound_at(before, k, j));
                lemma_binding_at(before, j);
            } else {
                lemma_binding_at(after, last);
            }
        }
        assert(bindings_map(after) =~= want);
    }
}

} // verus!
