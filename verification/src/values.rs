//! User value facts: recording, clearing and listing user-supplied value
//! descriptions keyed by (variable, definition site), with eager validation
//! that the site exists and write-through invalidation of derived views.

use vstd::prelude::*;
use crate::function::MediumLevelILFunction;
use crate::instruction::{Instruction, defines_var, is_def_site};
use crate::variable::{PossibleValueSet, UserValueFact, ValueFactError, Variable};

verus! {

/// Key of a fact: the variable and the address of the definition site.
pub open spec fn fact_key(f: UserValueFact) -> (Variable, u64) {
    (f.var, f.addr)
}

/// The mapping from (variable, definition site) to value that a fact list
/// denotes; on a list with distinct keys, the mapping carries exactly the
/// listed facts.
pub open spec fn facts_map(s: Seq<UserValueFact>) -> Map<(Variable, u64), PossibleValueSet>
    decreases s.len(),
{
    if s.len() == 0 {
        Map::empty()
    } else {
        facts_map(s.drop_last()).insert(fact_key(s.last()), s.last().value)
    }
}

/// Fact-list invariant: no two facts share a key, and every fact sits at an
/// existing definition site of its variable.
pub open spec fn facts_wf(instrs: Seq<Instruction>, s: Seq<UserValueFact>) -> bool {
    &&& forall|i: int, j: int|
        0 <= i < j < s.len() ==> fact_key(#[trigger] s[i]) != fact_key(#[trigger] s[j])
    &&& forall|i: int|
        0 <= i < s.len() ==> is_def_site(instrs, (#[trigger] s[i]).var, s[i].addr)
}

/// The denoted mapping holds a key exactly when some listed fact carries it.
pub proof fn lemma_facts_map_contains(s: Seq<UserValueFact>, k: (Variable, u64))
    ensures
        facts_map(s).contains_key(k) <==> exists|i: int|
            0 <= i < s.len() && fact_key(#[trigger] s[i]) == k,
    decreases s.len(),
{
    if s.len() > 0 {
        lemma_facts_map_contains(s.drop_last(), k);
        if facts_map(s).contains_key(k) {
            if fact_key(s.last()) == k {
                assert(fact_key(s[s.len() - 1]) == k);
            }
        }
        if exists|i: int| 0 <= i < s.len() && fact_key(#[trigger] s[i]) == k {
            let i = choose|i: int| 0 <= i < s.len() && fact_key(#[trigger] s[i]) == k;
            if i < s.len() - 1 {
                assert(fact_key(s.drop_last()[i]) == k);
            }
        }
    }
}

/// A key held by the denoted mapping maps to the value of some listed fact
/// that carries that key.
pub proof fn lemma_facts_map_value_listed(s: Seq<UserValueFact>, k: (Variable, u64))
    requires
        facts_map(s).contains_key(k),
    ensures
        exists|i: int|
            0 <= i < s.len() && fact_key(#[trigger] s[i]) == k && s[i].value == facts_map(s)[k],
    decreases s.len(),
{
    if s.len() > 0 {
        if fact_key(s.last()) == k {
            assert(fact_key(s[s.len() - 1]) == k && s[s.len() - 1].value == facts_map(s)[k]);
        } else {
            lemma_facts_map_value_listed(s.drop_last(), k);
            let i = choose|i: int|
                0 <= i < s.drop_last().len() && fact_key(#[trigger] s.drop_last()[i]) == k
                    && s.drop_last()[i].value == facts_map(s.drop_last())[k];
            assert(fact_key(s[i]) == k && s[i].value == facts_map(s)[k]);
        }
    }
}

/// Replacing the fact at position `i` by one with the same key denotes the
/// mapping with that key updated, when keys are distinct.
pub proof fn lemma_facts_map_update(s: Seq<UserValueFact>, i: int, f: UserValueFact)
    requires
        0 <= i < s.len(),
        fact_key(f) == fact_key(s[i]),
        forall|p: int, q: int|
            0 <= p < q < s.len() ==> fact_key(#[trigger] s[p]) != fact_key(#[trigger] s[q]),
    ensures
        facts_map(s.update(i, f)) == facts_map(s).insert(fact_key(f), f.value),
    decreases s.len(),
{
    let t = s.update(i, f);
    if i == s.len() - 1 {
        assert(t.drop_last() =~= s.drop_last());
        assert(t.last() == f);
        assert(facts_map(t) =~= facts_map(s).insert(fact_key(f), f.value));
    } else {
        assert(t.drop_last() =~= s.drop_last().update(i, f));
        lemma_facts_map_update(s.drop_last(), i, f);
        assert(t.last() == s.last());
        assert(fact_key(s[i]) != fact_key(s[s.len() - 1]));
        assert(facts_map(t) =~= facts_map(s).insert(fact_key(f), f.value));
    }
}

/// Removing the fact at position `i` denotes the mapping without its key,
/// when keys are distinct.
pub proof fn lemma_facts_map_remove(s: Seq<UserValueFact>, i: int)
    requires
        0 <= i < s.len(),
        forall|p: int, q: int|
            0 <= p < q < s.len() ==> fact_key(#[trigger] s[p]) != fact_key(#[trigger] s[q]),
    ensures
        facts_map(s.remove(i)) == facts_map(s).remove(fact_key(s[i])),
    decreases s.len(),
{
    let t = s.remove(i);
    if i == s.len() - 1 {
        assert(t =~= s.drop_last());
        lemma_facts_map_contains(s.drop_last(), fact_key(s[i]));
        assert(forall|p: int|
            0 <= p < s.len() - 1 ==> fact_key(#[trigger] s.drop_last()[p]) == fact_key(s[p]));
        assert(!facts_map(s.drop_last()).contains_key(fact_key(s[i])));
        assert(facts_map(t) =~= facts_map(s).remove(fact_key(s[i])));
    } else {
        assert(t.drop_last() =~= s.drop_last().remove(i));
        lemma_facts_map_remove(s.drop_last(), i);
        assert(t.last() == s.last());
        assert(fact_key(s[i]) != fact_key(s[s.len() - 1]));
        assert(facts_map(t) =~= facts_map(s).remove(fact_key(s[i])));
    }
}

/// Appending a fact denotes the mapping with its key bound to its value.
pub proof fn lemma_facts_map_push(s: Seq<UserValueFact>, f: UserValueFact)
    ensures
        facts_map(s.push(f)) == facts_map(s).insert(fact_key(f), f.value),
{
    assert(s.push(f).drop_last() =~= s);
    assert(s.push(f).last() == f);
}

impl MediumLevelILFunction {
    /// The complete current mapping from (variable, definition site) to
    /// committed user value fact.
    pub open spec fn facts(self) -> Map<(Variable, u64), PossibleValueSet> {
        facts_map(self.user_values@)
    }

    /// Whether some instruction at `addr` assigns `var`.
    pub fn has_def_site(&self, var: &Variable, addr: u64) -> (r: bool)
        ensures
            r == is_def_site(self.instructions@, *var, addr),
    {
        let n = self.instructions.len();
        let mut i: usize = 0;
        while i < n
            invariant
                i <= n,
                n == self.instructions@.len(),
                forall|j: int|
                    0 <= j < i ==> !(#[trigger] self.instructions@[j].address == addr
                        && defines_var(self.instructions@[j], *var)),
            decreases n - i,
        {
            let ins = &self.instructions[i];
            if ins.address == addr {
                match &ins.defines {
                    Some(d) => {
                        if *d == *var {
                            return true;
                        }
                    },
                    None => {},
                }
            }
            i = i + 1;
        }
        false
    }

    /// Position of the committed fact keyed by (`var`, `addr`), if any.
    fn find_fact(&self, var: &Variable, addr: u64) -> (r: Option<usize>)
        ensures
            match r {
                Some(i) => i < self.user_values@.len() && fact_key(self.user_values@[i as int])
                    == (*var, addr),
                None => forall|j: int|
                    0 <= j < self.user_values@.len() ==> fact_key(#[trigger] self.user_values@[j])
                        != (*var, addr),
            },
    {
        let n = self.user_values.len();
        let mut i: usize = 0;
        while i < n
            invariant
                i <= n,
                n == self.user_values@.len(),
                forall|j: int|
                    0 <= j < i ==> fact_key(#[trigger] self.user_values@[j]) != (*var, addr),
            decreases n - i,
        {
            let f = &self.user_values[i];
            if f.var == *var && f.addr == addr {
                return Some(i);
            }
            i = i + 1;
        }
        None
    }

    /// Records the informed value of `var` at its definition site `addr` and
    /// writes it through to the dataflow solver, whose re-propagation leaves
    /// every derived view (the SSA counterpart, the cached partition) stale.
    ///
    /// The address must be an actual definition site of the variable:
    /// otherwise the call reports [`ValueFactError::NoDefinitionSite`] and
    /// mutates nothing. On success the listed mapping gains exactly this
    /// fact; an earlier fact under the same key is replaced (last writer
    /// wins).
    pub fn set_user_var_value(
        &mut self,
        var: &Variable,
        addr: u64,
        value: PossibleValueSet,
    ) -> (r: Result<(), ValueFactError>)
        requires
            old(self).wf(),
            old(self).generation < u64::MAX,
        ensures
            final(self).wf(),
            !is_def_site(old(self).instructions@, *var, addr) ==> r == Err::<(), ValueFactError>(
                ValueFactError::NoDefinitionSite { var: *var, addr },
            ) && *final(self) == *old(self),
            is_def_site(old(self).instructions@, *var, addr) ==> {
                &&& r == Ok::<(), ValueFactError>(())
                &&& final(self).facts() == old(self).facts().insert((*var, addr), value)
                &&& final(self).facts()[(*var, addr)] == value
                &&& final(self).instructions == old(self).instructions
                &&& final(self).var_meta == old(self).var_meta
                &&& final(self).owner == old(self).owner
                &&& final(self).is_ssa == old(self).is_ssa
                &&& final(self).generation == old(self).generation + 1
                &&& final(self).ssa_cache is None
                &&& final(self).blocks_cache == old(self).blocks_cache
            },
    {
        if !self.has_def_site(var, addr) {
            return Err(ValueFactError::NoDefinitionSite { var: *var, addr });
        }
        let fact = UserValueFact { var: *var, addr, value };
        match self.find_fact(var, addr) {
            Some(i) => {
                proof {
                    lemma_facts_map_update(self.user_values@, i as int, fact);
                }
                self.user_values[i] = fact;
            },
            None => {
                proof {
                    lemma_facts_map_push(self.user_values@, fact);
                }
                self.user_values.push(fact);
            },
        }
        self.generation = self.generation + 1;
        self.ssa_cache = None;
        Ok(())
    }

    /// Clears the fact previously recorded for `var` at `addr` and triggers
    /// re-propagation as if the fact had never been set.
    ///
    /// Reports [`ValueFactError::NoDefinitionSite`] when `addr` is not a
    /// definition site of `var`, and [`ValueFactError::NothingToClear`] when
    /// the site exists but no fact is currently set there; in both cases
    /// nothing is mutated.
    pub fn clear_user_var_value(&mut self, var: &Variable, addr: u64) -> (r: Result<
        (),
        ValueFactError,
    >)
        requires
            old(self).wf(),
            old(self).generation < u64::MAX,
        ensures
            final(self).wf(),
            !is_def_site(old(self).instructions@, *var, addr) ==> r == Err::<(), ValueFactError>(
                ValueFactError::NoDefinitionSite { var: *var, addr },
            ) && *final(self) == *old(self),
            is_def_site(old(self).instructions@, *var, addr) && !old(self).facts().contains_key(
                (*var, addr),
            ) ==> r == Err::<(), ValueFactError>(ValueFactError::NothingToClear { var: *var, addr })
                && *final(self) == *old(self),
            is_def_site(old(self).instructions@, *var, addr) && old(self).facts().contains_key(
                (*var, addr),
            ) ==> {
                &&& r == Ok::<(), ValueFactError>(())
                &&& final(self).facts() == old(self).facts().remove((*var, addr))
                &&& !final(self).facts().contains_key((*var, addr))
                &&& final(self).instructions == old(self).instructions
                &&& final(self).var_meta == old(self).var_meta
                &&& final(self).owner == old(self).owner
                &&& final(self).is_ssa == old(self).is_ssa
                &&& final(self).generation == old(self).generation + 1
                &&& final(self).ssa_cache is None
                &&& final(self).blocks_cache == old(self).blocks_cache
            },
    {
        if !self.has_def_site(var, addr) {
            return Err(ValueFactError::NoDefinitionSite { var: *var, addr });
        }
        proof {
            lemma_facts_map_contains(self.user_values@, (*var, addr));
        }
        match self.find_fact(var, addr) {
            Some(i) => {
                proof {
                    lemma_facts_map_remove(self.user_values@, i as int);
                }
                self.user_values.remove(i);
                self.generation = self.generation + 1;
                self.ssa_cache = None;
                Ok(())
            },
            None => Err(ValueFactError::NothingToClear { var: *var, addr }),
        }
    }

    /// The complete current list of committed facts, one entry per
    /// (variable, definition site). Read-only: reflects exactly the
    /// successfully committed facts, in commit order.
    pub fn user_var_values(&self) -> (r: Vec<UserValueFact>)
        ensures
            r@ == self.user_values@,
    {
        let n = self.user_values.len();
        let mut out: Vec<UserValueFact> = Vec::new();
        let mut i: usize = 0;
        while i < n
            invariant
                i <= n,
                n == self.user_values@.len(),
                out@ =~= self.user_values@.take(i as int),
            decreases n - i,
        {
            out.push(self.user_values[i]);
            proof {
                assert(out@ =~= self.user_values@.take(i + 1));
            }
            i = i + 1;
        }
        proof {
            assert(self.user_values@.take(n as int) =~= self.user_values@);
        }
        out
    }

    /// Clears every committed fact, each clear triggering re-propagation as
    /// [`Self::clear_user_var_value`] does. The container's invariant keeps
    /// every committed fact at an existing definition site, so no individual
    /// clear can fail and the whole operation always succeeds, leaving the
    /// listed mapping empty.
    pub fn clear_user_var_values(&mut self) -> (r: Result<(), ValueFactError>)
        requires
            old(self).wf(),
            old(self).generation < u64::MAX,
        ensures
            final(self).wf(),
            r == Ok::<(), ValueFactError>(()),
            final(self).user_values@.len() == 0,
            final(self).facts() == Map::<(Variable, u64), PossibleValueSet>::empty(),
            final(self).instructions == old(self).instructions,
            final(self).var_meta == old(self).var_meta,
            final(self).owner == old(self).owner,
            final(self).is_ssa == old(self).is_ssa,
            old(self).user_values@.len() == 0 ==> final(self).generation == old(self).generation
                && final(self).ssa_cache == old(self).ssa_cache,
            old(self).user_values@.len() > 0 ==> final(self).generation == old(self).generation + 1
                && final(self).ssa_cache is None,
            final(self).blocks_cache == old(self).blocks_cache,
    {
        if self.user_values.len() > 0 {
            self.user_values = Vec::new();
            self.generation = self.generation + 1;
            self.ssa_cache = None;
        }
        Ok(())
    }
}

/// After a successful set of (`v`, `a`) to `val`, the listed mapping shows
/// the fact: the key is present, bound to `val`, and some listed entry
/// carries exactly that fact.
pub proof fn lemma_set_then_list_shows_fact(
    f: MediumLevelILFunction,
    v: Variable,
    a: u64,
    val: PossibleValueSet,
)
    requires
        f.facts().contains_key((v, a)),
        f.facts()[(v, a)] == val,
    ensures
        exists|i: int|
            0 <= i < f.user_values@.len() && #[trigger] f.user_values@[i] == (UserValueFact {
                var: v,
                addr: a,
                value: val,
            }),
{
    lemma_facts_map_value_listed(f.user_values@, (v, a));
    let i = choose|i: int|
        0 <= i < f.user_values@.len() && fact_key(#[trigger] f.user_values@[i]) == (v, a)
            && f.user_values@[i].value == f.facts()[(v, a)];
    assert(f.user_values@[i] == (UserValueFact { var: v, addr: a, value: val }));
}

/// After a successful clear of (`v`, `a`), no listed entry carries that key
/// any more.
pub proof fn lemma_clear_then_list_lacks_fact(f: MediumLevelILFunction, v: Variable, a: u64)
    requires
        !f.facts().contains_key((v, a)),
    ensures
        forall|i: int|
            0 <= i < f.user_values@.len() ==> fact_key(#[trigger] f.user_values@[i]) != (v, a),
{
    lemma_facts_map_contains(f.user_values@, (v, a));
}

} // verus!
