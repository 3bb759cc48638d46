//! Variable metadata: user-assigned and automatically inferred names and
//! declared types. User-defined entries take precedence over automatic ones
//! and survive reanalysis; automatic entries may be overwritten freely.

use vstd::prelude::*;
use crate::function::MediumLevelILFunction;
use crate::variable::{StorageClass, TypeToken, Variable, VariableMetadata};

verus! {

/// What one metadata entry records: the name, the declared type, and whether
/// a human or tool set it (as opposed to automatic inference).
pub open spec fn meta_val(m: VariableMetadata) -> (Seq<char>, TypeToken, bool) {
    (m.name@, m.ty, m.user_defined)
}

/// The mapping from variable to recorded metadata that an entry list denotes.
pub open spec fn meta_map(s: Seq<VariableMetadata>) -> Map<Variable, (Seq<char>, TypeToken, bool)>
    decreases s.len(),
{
    if s.len() == 0 {
        Map::empty()
    } else {
        meta_map(s.drop_last()).insert(s.last().var, meta_val(s.last()))
    }
}

/// Metadata invariant: one entry per variable.
pub open spec fn meta_wf(s: Seq<VariableMetadata>) -> bool {
    forall|i: int, j: int|
        0 <= i < j < s.len() ==> (#[trigger] s[i]).var != (#[trigger] s[j]).var
}

/// The denoted mapping holds a variable exactly when some entry records it.
pub proof fn lemma_meta_map_contains(s: Seq<VariableMetadata>, v: Variable)
    ensures
        meta_map(s).contains_key(v) <==> exists|i: int|
            0 <= i < s.len() && (#[trigger] s[i]).var == v,
    decreases s.len(),
{
    if s.len() > 0 {
        lemma_meta_map_contains(s.drop_last(), v);
        if meta_map(s).contains_key(v) {
            if s.last().var == v {
                assert(s[s.len() - 1].var == v);
            }
        }
        if exists|i: int| 0 <= i < s.len() && (#[trigger] s[i]).var == v {
            let i = choose|i: int| 0 <= i < s.len() && (#[trigger] s[i]).var == v;
            if i < s.len() - 1 {
                assert(s.drop_last()[i].var == v);
            }
        }
    }
}

/// With one entry per variable, the denoted mapping carries entry `i`'s
/// recorded metadata under entry `i`'s variable.
pub proof fn lemma_meta_map_index(s: Seq<VariableMetadata>, i: int)
    requires
        0 <= i < s.len(),
        forall|p: int, q: int|
            0 <= p < q < s.len() ==> (#[trigger] s[p]).var != (#[trigger] s[q]).var,
    ensures
        meta_map(s).contains_key(s[i].var),
        meta_map(s)[s[i].var] == meta_val(s[i]),
    decreases s.len(),
{
    if i == s.len() - 1 {
    } else {
        lemma_meta_map_index(s.drop_last(), i);
        assert(s.drop_last()[i] == s[i]);
        assert(s[i].var != s[s.len() - 1].var);
    }
}

/// Replacing the entry at position `i` by one for the same variable denotes
/// the mapping with that variable updated, when entries are one per variable.
pub proof fn lemma_meta_map_update(s: Seq<VariableMetadata>, i: int, m: VariableMetadata)
    requires
        0 <= i < s.len(),
        m.var == s[i].var,
        forall|p: int, q: int|
            0 <= p < q < s.len() ==> (#[trigger] s[p]).var != (#[trigger] s[q]).var,
    ensures
        meta_map(s.update(i, m)) == meta_map(s).insert(m.var, meta_val(m)),
    decreases s.len(),
{
    let t = s.update(i, m);
    if i == s.len() - 1 {
        assert(t.drop_last() =~= s.drop_last());
        assert(t.last() == m);
        assert(meta_map(t) =~= meta_map(s).insert(m.var, meta_val(m)));
    } else {
        assert(t.drop_last() =~= s.drop_last().update(i, m));
        lemma_meta_map_update(s.drop_last(), i, m);
        assert(t.last() == s.last());
        assert(s[i].var != s[s.len() - 1].var);
        assert(meta_map(t) =~= meta_map(s).insert(m.var, meta_val(m)));
    }
}

/// Appending an entry denotes the mapping with its variable bound to its
/// recorded metadata.
pub proof fn lemma_meta_map_push(s: Seq<VariableMetadata>, m: VariableMetadata)
    ensures
        meta_map(s.push(m)) == meta_map(s).insert(m.var, meta_val(m)),
{
    assert(s.push(m).drop_last() =~= s);
    assert(s.push(m).last() == m);
}

/// Removing the entry at position `i` denotes the mapping without its
/// variable, when entries are one per variable.
pub proof fn lemma_meta_map_remove(s: Seq<VariableMetadata>, i: int)
    requires
        0 <= i < s.len(),
        forall|p: int, q: int|
            0 <= p < q < s.len() ==> (#[trigger] s[p]).var != (#[trigger] s[q]).var,
    ensures
        meta_map(s.remove(i)) == meta_map(s).remove(s[i].var),
    decreases s.len(),
{
    let t = s.remove(i);
    if i == s.len() - 1 {
        assert(t =~= s.drop_last());
        lemma_meta_map_contains(s.drop_last(), s[i].var);
        assert(!meta_map(s.drop_last()).contains_key(s[i].var));
        assert(meta_map(t) =~= meta_map(s).remove(s[i].var));
    } else {
        assert(t.drop_last() =~= s.drop_last().remove(i));
        lemma_meta_map_remove(s.drop_last(), i);
        assert(t.last() == s.last());
        assert(s[i].var != s[s.len() - 1].var);
        assert(meta_map(t) =~= meta_map(s).remove(s[i].var));
    }
}

impl MediumLevelILFunction {
    /// The complete current mapping from variable to recorded (name, declared
    /// type, user-defined flag).
    pub open spec fn metas(self) -> Map<Variable, (Seq<char>, TypeToken, bool)> {
        meta_map(self.var_meta@)
    }

    /// Position of the metadata entry for `var`, if any.
    fn find_meta(&self, var: &Variable) -> (r: Option<usize>)
        ensures
            match r {
                Some(i) => i < self.var_meta@.len() && self.var_meta@[i as int].var == *var,
                None => forall|j: int|
                    0 <= j < self.var_meta@.len() ==> (#[trigger] self.var_meta@[j]).var != *var,
            },
    {
        let n = self.var_meta.len();
        let mut i: usize = 0;
        while i < n
            invariant
                i <= n,
                n == self.var_meta@.len(),
                forall|j: int| 0 <= j < i ==> (#[trigger] self.var_meta@[j]).var != *var,
            decreases n - i,
        {
            if self.var_meta[i].var == *var {
                return Some(i);
            }
            i = i + 1;
        }
        None
    }

    /// Whether a human or tool has explicitly named or typed `var`.
    pub fn is_var_user_defined(&self, var: &Variable) -> (r: bool)
        requires
            self.wf(),
        ensures
            r == (self.metas().contains_key(*var) && self.metas()[*var].2),
    {
        proof {
            lemma_meta_map_contains(self.var_meta@, *var);
        }
        match self.find_meta(var) {
            Some(i) => {
                proof {
                    lemma_meta_map_index(self.var_meta@, i as int);
                }
                self.var_meta[i].user_defined
            },
            None => false,
        }
    }

    /// Records a user-assigned name and declared type for `var`, replacing
    /// whatever was recorded before and marking the variable user-defined.
    /// `ignore_disjoint_uses` is handed through to the engine's variable
    /// splitting, which lies outside this core and does not change the
    /// recorded metadata.
    pub fn create_user_var(
        &mut self,
        var: &Variable,
        ty: TypeToken,
        name: String,
        ignore_disjoint_uses: bool,
    )
        requires
            old(self).wf(),
        ensures
            final(self).wf(),
            final(self).metas() == old(self).metas().insert(*var, (name@, ty, true)),
            final(self).instructions == old(self).instructions,
            final(self).user_values == old(self).user_values,
            final(self).owner == old(self).owner,
            final(self).is_ssa == old(self).is_ssa,
            final(self).generation == old(self).generation,
            final(self).ssa_cache == old(self).ssa_cache,
            final(self).blocks_cache == old(self).blocks_cache,
    {
        let entry = VariableMetadata { var: *var, name, ty, user_defined: true };
        match self.find_meta(var) {
            Some(i) => {
                proof {
                    lemma_meta_map_update(self.var_meta@, i as int, entry);
                }
                self.var_meta[i] = entry;
            },
            None => {
                proof {
                    lemma_meta_map_push(self.var_meta@, entry);
                }
                self.var_meta.push(entry);
            },
        }
    }

    /// Records an automatically inferred name and declared type for `var`.
    /// A user-defined entry takes precedence: when one is present the call
    /// changes nothing, so inference never overwrites what a human set.
    pub fn create_auto_var(
        &mut self,
        var: &Variable,
        ty: TypeToken,
        name: String,
        ignore_disjoint_uses: bool,
    )
        requires
            old(self).wf(),
        ensures
            final(self).wf(),
            old(self).metas().contains_key(*var) && old(self).metas()[*var].2 ==> *final(self)
                == *old(self),
            !(old(self).metas().contains_key(*var) && old(self).metas()[*var].2) ==> final(self).metas() == old(self).metas().insert(*var, (name@, ty, false)),
            final(self).instructions == old(self).instructions,
            final(self).user_values == old(self).user_values,
            final(self).owner == old(self).owner,
            final(self).is_ssa == old(self).is_ssa,
            final(self).generation == old(self).generation,
            final(self).ssa_cache == old(self).ssa_cache,
            final(self).blocks_cache == old(self).blocks_cache,
    {
        proof {
            lemma_meta_map_contains(self.var_meta@, *var);
        }
        match self.find_meta(var) {
            Some(i) => {
                proof {
                    lemma_meta_map_index(self.var_meta@, i as int);
                }
                if self.var_meta[i].user_defined {
                    return ;
                }
                let entry = VariableMetadata { var: *var, name, ty, user_defined: false };
                proof {
                    lemma_meta_map_update(self.var_meta@, i as int, entry);
                }
                self.var_meta[i] = entry;
            },
            None => {
                let entry = VariableMetadata { var: *var, name, ty, user_defined: false };
                proof {
                    lemma_meta_map_push(self.var_meta@, entry);
                }
                self.var_meta.push(entry);
            },
        }
    }

    /// Deletes the user-defined metadata of `var`. An automatic entry, or no
    /// entry at all, is left untouched.
    pub fn delete_user_var(&mut self, var: &Variable)
        requires
            old(self).wf(),
        ensures
            final(self).wf(),
            old(self).metas().contains_key(*var) && old(self).metas()[*var].2 ==> final(self).metas() == old(self).metas().remove(*var),
            !(old(self).metas().contains_key(*var) && old(self).metas()[*var].2) ==> *final(self)
                == *old(self),
            final(self).instructions == old(self).instructions,
            final(self).user_values == old(self).user_values,
            final(self).owner == old(self).owner,
            final(self).is_ssa == old(self).is_ssa,
            final(self).generation == old(self).generation,
            final(self).ssa_cache == old(self).ssa_cache,
            final(self).blocks_cache == old(self).blocks_cache,
    {
        proof {
            lemma_meta_map_contains(self.var_meta@, *var);
        }
        match self.find_meta(var) {
            Some(i) => {
                proof {
                    lemma_meta_map_index(self.var_meta@, i as int);
                }
                if self.var_meta[i].user_defined {
                    proof {
                        lemma_meta_map_remove(self.var_meta@, i as int);
                    }
                    self.var_meta.remove(i);
                }
            },
            None => {},
        }
    }

    /// Records a user-assigned name and declared type for the stack variable
    /// at frame offset `offset`.
    pub fn create_user_stack_var(&mut self, offset: i64, ty: TypeToken, name: String)
        requires
            old(self).wf(),
        ensures
            final(self).wf(),
            final(self).metas() == old(self).metas().insert(
                (Variable { class: StorageClass::Stack, id: offset, version: 0 }),
                (name@, ty, true),
            ),
            final(self).instructions == old(self).instructions,
            final(self).user_values == old(self).user_values,
            final(self).owner == old(self).owner,
            final(self).is_ssa == old(self).is_ssa,
            final(self).generation == old(self).generation,
            final(self).ssa_cache == old(self).ssa_cache,
            final(self).blocks_cache == old(self).blocks_cache,
    {
        let var = Variable::new(StorageClass::Stack, offset);
        self.create_user_var(&var, ty, name, false);
    }

    /// Deletes the user-defined metadata of the stack variable at frame
    /// offset `offset`.
    pub fn delete_user_stack_var(&mut self, offset: i64)
        requires
            old(self).wf(),
        ensures
            final(self).wf(),
            ({
                let v = Variable { class: StorageClass::Stack, id: offset, version: 0 };
                &&& old(self).metas().contains_key(v) && old(self).metas()[v].2 ==> final(self).metas() == old(self).metas().remove(v)
                &&& !(old(self).metas().contains_key(v) && old(self).metas()[v].2) ==> *final(self)
                    == *old(self)
            }),
            final(self).instructions == old(self).instructions,
            final(self).user_values == old(self).user_values,
            final(self).generation == old(self).generation,
    {
        let var = Variable::new(StorageClass::Stack, offset);
        self.delete_user_var(&var);
    }

    /// Records an automatically inferred name and declared type for the stack
    /// variable at frame offset `offset`; a user-defined entry takes
    /// precedence as in [`Self::create_auto_var`].
    pub fn create_auto_stack_var(&mut self, offset: i64, ty: TypeToken, name: String)
        requires
            old(self).wf(),
        ensures
            final(self).wf(),
            ({
                let v = Variable { class: StorageClass::Stack, id: offset, version: 0 };
                &&& old(self).metas().contains_key(v) && old(self).metas()[v].2 ==> *final(self)
                    == *old(self)
                &&& !(old(self).metas().contains_key(v) && old(self).metas()[v].2) ==> final(self).metas() == old(self).metas().insert(v, (name@, ty, false))
            }),
            final(self).instructions == old(self).instructions,
            final(self).user_values == old(self).user_values,
            final(self).generation == old(self).generation,
    {
        let var = Variable::new(StorageClass::Stack, offset);
        self.create_auto_var(&var, ty, name, false);
    }

    /// Deletes the automatically inferred metadata of the stack variable at
    /// frame offset `offset`. A user-defined entry survives: deletion of
    /// automatic state never discards what a human set.
    pub fn delete_auto_stack_var(&mut self, offset: i64)
        requires
            old(self).wf(),
        ensures
            final(self).wf(),
            ({
                let v = Variable { class: StorageClass::Stack, id: offset, version: 0 };
                &&& old(self).metas().contains_key(v) && !old(self).metas()[v].2 ==> final(self).metas() == old(self).metas().remove(v)
                &&& !(old(self).metas().contains_key(v) && !old(self).metas()[v].2) ==> *final(self) == *old(self)
            }),
            final(self).instructions == old(self).instructions,
            final(self).user_values == old(self).user_values,
            final(self).generation == old(self).generation,
    {
        let var = Variable::new(StorageClass::Stack, offset);
        proof {
            lemma_meta_map_contains(self.var_meta@, var);
        }
        match self.find_meta(&var) {
            Some(i) => {
                proof {
                    lemma_meta_map_index(self.var_meta@, i as int);
                }
                if !self.var_meta[i].user_defined {
                    proof {
                        lemma_meta_map_remove(self.var_meta@, i as int);
                    }
                    self.var_meta.remove(i);
                }
            },
            None => {},
        }
    }
}

} // verus!
