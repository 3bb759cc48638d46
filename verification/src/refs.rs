//! The variable reference index: definition sites of a variable, all
//! references to a variable, and all variable references touching an address
//! range, each tagged with the IL layer it was found in.

use vstd::prelude::*;
use crate::function::MediumLevelILFunction;
use crate::instruction::{Instruction, defines_var, instrs_wf, references_var};
use crate::variable::Variable;

verus! {

/// Which IL-layer graph a reference was found in. A closed enumeration, so
/// results from different layers are distinguishable and never silently
/// merged: the same source variable can be split or merged differently
/// across layers.
#[derive(Clone, Copy, PartialEq, Eq, Structural, Debug)]
pub enum FunctionGraphType {
    Normal,
    LowLevelIL,
    LowLevelILSSAForm,
    MediumLevelIL,
    MediumLevelILSSAForm,
    HighLevelIL,
}

/// One place an IL-layer cross-reference was found: the architecture and
/// address of the referencing instruction, the IL-layer graph it belongs to,
/// and the expression position resolving it within its function (feed it to
/// `instruction_from_idx`).
#[derive(Clone, Copy, PartialEq, Eq, Structural, Debug)]
pub struct ILReferenceSource {
    pub arch: u32,
    pub addr: u64,
    pub graph_type: FunctionGraphType,
    pub expr_index: usize,
}

impl ILReferenceSource {
    /// Program address of the referencing instruction.
    pub fn addr(&self) -> (r: u64)
        ensures
            r == self.addr,
    {
        self.addr
    }

    /// The IL-layer graph the reference belongs to.
    pub fn graph_type(&self) -> (r: FunctionGraphType)
        ensures
            r == self.graph_type,
    {
        self.graph_type
    }

    /// Expression position of the referencing instruction within its
    /// function.
    pub fn expr(&self) -> (r: usize)
        ensures
            r == self.expr_index,
    {
        self.expr_index
    }
}

/// A reference source paired with the specific variable it refers to.
#[derive(Clone, Copy, PartialEq, Eq, Structural, Debug)]
pub struct VariableReferenceSource {
    pub var: Variable,
    pub source: ILReferenceSource,
}

impl VariableReferenceSource {
    /// The variable referred to.
    pub fn variable(&self) -> (r: Variable)
        ensures
            r == self.var,
    {
        self.var
    }

    /// Where the reference was found.
    pub fn source(&self) -> (r: ILReferenceSource)
        ensures
            r == self.source,
    {
        self.source
    }
}

/// The ordered linear positions of the definition sites of a variable: a
/// finite, restartable sequence, ordered by position, not by discovery order
/// or address.
pub struct MediumLevelILInstructionList {
    pub indices: Vec<usize>,
}

impl MediumLevelILInstructionList {
    /// Number of sites in the sequence.
    pub fn len(&self) -> (r: usize)
        ensures
            r == self.indices@.len(),
    {
        self.indices.len()
    }

    /// The linear instruction position of the `i`-th site.
    pub fn get(&self, i: usize) -> (r: usize)
        requires
            i < self.indices@.len(),
        ensures
            r == self.indices@[i as int],
    {
        self.indices[i]
    }
}

/// The linear positions, in increasing order, of the instructions among the
/// first `n` that assign `v`.
pub open spec fn def_indices(instrs: Seq<Instruction>, v: Variable, n: int) -> Seq<usize>
    decreases n,
{
    if n <= 0 {
        Seq::empty()
    } else if defines_var(instrs[n - 1], v) {
        def_indices(instrs, v, n - 1).push((n - 1) as usize)
    } else {
        def_indices(instrs, v, n - 1)
    }
}

/// Every listed definition site lies among the first `n` positions and
/// assigns `v`; every position that assigns `v` is listed; and the list is
/// strictly increasing, so it is ordered by linear position.
pub proof fn lemma_def_indices_characterize(instrs: Seq<Instruction>, v: Variable, n: int)
    requires
        0 <= n <= instrs.len(),
        n <= usize::MAX,
    ensures
        forall|k: int|
            0 <= k < def_indices(instrs, v, n).len() ==> #[trigger] def_indices(instrs, v, n)[k]
                < n && defines_var(instrs[def_indices(instrs, v, n)[k] as int], v),
        forall|p: int|
            0 <= p < n && defines_var(#[trigger] instrs[p], v) ==> def_indices(
                instrs,
                v,
                n,
            ).contains(p as usize),
        forall|k1: int, k2: int|
            0 <= k1 < k2 < def_indices(instrs, v, n).len() ==> #[trigger] def_indices(
                instrs,
                v,
                n,
            )[k1] < #[trigger] def_indices(instrs, v, n)[k2],
    decreases n,
{
    if n > 0 {
        lemma_def_indices_characterize(instrs, v, n - 1);
        let s = def_indices(instrs, v, n);
        let t = def_indices(instrs, v, n - 1);
        if defines_var(instrs[n - 1], v) {
            assert(s == t.push((n - 1) as usize));
            assert(forall|k: int| 0 <= k < t.len() ==> #[trigger] s[k] == t[k]);
            assert(s[s.len() - 1] == (n - 1) as usize);
            assert forall|p: int|
                0 <= p < n && defines_var(#[trigger] instrs[p], v) implies s.contains(
                p as usize,
            ) by {
                if p < n - 1 {
                    let k = choose|k: int| 0 <= k < t.len() && t[k] == p as usize;
                    assert(s[k] == p as usize);
                } else {
                    assert(s[s.len() - 1] == p as usize);
                }
            }
        } else {
            assert forall|p: int|
                0 <= p < n && defines_var(#[trigger] instrs[p], v) implies s.contains(
                p as usize,
            ) by {
                assert(p != n - 1);
            }
        }
    }
}

/// The reference-source record for an instruction, tagged with the IL-layer
/// graph `g`.
pub open spec fn ref_of(ins: Instruction, g: FunctionGraphType) -> ILReferenceSource {
    ILReferenceSource { arch: ins.arch, addr: ins.address, graph_type: g, expr_index: ins.expr_index }
}

/// The reference sources for `v` among the first `n` instructions, one per
/// referencing instruction, in linear-position order.
pub open spec fn refs_spec(
    instrs: Seq<Instruction>,
    v: Variable,
    g: FunctionGraphType,
    n: int,
) -> Seq<ILReferenceSource>
    decreases n,
{
    if n <= 0 {
        Seq::empty()
    } else if references_var(instrs[n - 1], v) {
        refs_spec(instrs, v, g, n - 1).push(ref_of(instrs[n - 1], g))
    } else {
        refs_spec(instrs, v, g, n - 1)
    }
}

/// Every listed reference comes from an instruction among the first `n` that
/// references `v`; every such instruction is listed; and on a well-formed
/// stream the listing's expression positions strictly increase, so the
/// references are ordered by linear position.
pub proof fn lemma_refs_spec_characterize(
    instrs: Seq<Instruction>,
    v: Variable,
    g: FunctionGraphType,
    n: int,
)
    requires
        instrs_wf(instrs),
        0 <= n <= instrs.len(),
    ensures
        forall|k: int|
            0 <= k < refs_spec(instrs, v, g, n).len() ==> exists|i: int|
                0 <= i < n && references_var(#[trigger] instrs[i], v) && (#[trigger] refs_spec(
                    instrs,
                    v,
                    g,
                    n,
                )[k]) == ref_of(instrs[i], g),
        forall|i: int|
            0 <= i < n && references_var(#[trigger] instrs[i], v) ==> refs_spec(
                instrs,
                v,
                g,
                n,
            ).contains(ref_of(instrs[i], g)),
        forall|k1: int, k2: int|
            0 <= k1 < k2 < refs_spec(instrs, v, g, n).len() ==> (#[trigger] refs_spec(
                instrs,
                v,
                g,
                n,
            )[k1]).expr_index < (#[trigger] refs_spec(instrs, v, g, n)[k2]).expr_index,
    decreases n,
{
    if n > 0 {
        lemma_refs_spec_characterize(instrs, v, g, n - 1);
        let s = refs_spec(instrs, v, g, n);
        let t = refs_spec(instrs, v, g, n - 1);
        if references_var(instrs[n - 1], v) {
            assert(s == t.push(ref_of(instrs[n - 1], g)));
            assert(forall|k: int| 0 <= k < t.len() ==> #[trigger] s[k] == t[k]);
            assert forall|k: int| 0 <= k < s.len() implies exists|i: int|
                0 <= i < n && references_var(#[trigger] instrs[i], v) && (#[trigger] s[k])
                    == ref_of(instrs[i], g) by {
                if k < t.len() {
                    let i = choose|i: int|
                        0 <= i < n - 1 && references_var(#[trigger] instrs[i], v) && t[k] == ref_of(
                            instrs[i],
                            g,
                        );
                    assert(references_var(instrs[i], v) && s[k] == ref_of(instrs[i], g));
                } else {
                    assert(references_var(instrs[n - 1], v) && s[k] == ref_of(instrs[n - 1], g));
                }
            }
            assert forall|i: int|
                0 <= i < n && references_var(#[trigger] instrs[i], v) implies s.contains(
                ref_of(instrs[i], g),
            ) by {
                if i < n - 1 {
                    let k = choose|k: int| 0 <= k < t.len() && t[k] == ref_of(instrs[i], g);
                    assert(s[k] == ref_of(instrs[i], g));
                } else {
                    assert(s[s.len() - 1] == ref_of(instrs[i], g));
                }
            }
            assert forall|k1: int, k2: int| 0 <= k1 < k2 < s.len() implies (
            #[trigger] s[k1]).expr_index < (#[trigger] s[k2]).expr_index by {
                if k2 < t.len() {
                    assert(t[k1].expr_index < t[k2].expr_index);
                } else {
                    let i = choose|i: int|
                        0 <= i < n - 1 && references_var(#[trigger] instrs[i], v) && t[k1]
                            == ref_of(instrs[i], g);
                    assert(instrs[i].expr_index < instrs[n - 1].expr_index);
                }
            }
        } else {
            assert forall|i: int|
                0 <= i < n && references_var(#[trigger] instrs[i], v) implies s.contains(
                ref_of(instrs[i], g),
            ) by {
                assert(i != n - 1);
                let k = choose|k: int| 0 <= k < t.len() && t[k] == ref_of(instrs[i], g);
                assert(s[k] == ref_of(instrs[i], g));
            }
        }
    }
}

/// The variable an instruction assigns, as a one-element sequence, or the
/// empty sequence when it assigns none.
pub open spec fn occ_head(ins: Instruction) -> Seq<Variable> {
    match ins.defines {
        Some(v) => seq![v],
        None => Seq::empty(),
    }
}

/// The subsequence of first occurrences: each element of `s`, kept at its
/// first position only.
pub open spec fn dedup_first(s: Seq<Variable>) -> Seq<Variable>
    decreases s.len(),
{
    if s.len() == 0 {
        Seq::empty()
    } else {
        let p = dedup_first(s.drop_last());
        if p.contains(s.last()) {
            p
        } else {
            p.push(s.last())
        }
    }
}

/// First-occurrence deduplication keeps exactly the elements of `s`, each
/// exactly once.
pub proof fn lemma_dedup_first(s: Seq<Variable>)
    ensures
        forall|x: Variable| dedup_first(s).contains(x) <==> s.contains(x),
        forall|k1: int, k2: int|
            0 <= k1 < k2 < dedup_first(s).len() ==> #[trigger] dedup_first(s)[k1]
                != #[trigger] dedup_first(s)[k2],
    decreases s.len(),
{
    if s.len() > 0 {
        lemma_dedup_first(s.drop_last());
        let p = dedup_first(s.drop_last());
        let d = dedup_first(s);
        assert forall|x: Variable| d.contains(x) implies s.contains(x) by {
            let k0 = choose|k0: int| 0 <= k0 < d.len() && d[k0] == x;
            if k0 < p.len() {
                assert(p[k0] == x);
                assert(p.contains(x));
                assert(s.drop_last().contains(x));
                let k = choose|k: int| 0 <= k < s.drop_last().len() && s.drop_last()[k] == x;
                assert(s[k] == x);
            } else {
                assert(d[k0] == s.last());
                assert(s[s.len() - 1] == x);
            }
        }
        assert forall|x: Variable| s.contains(x) implies d.contains(x) by {
            let k = choose|k: int| 0 <= k < s.len() && s[k] == x;
            if k < s.len() - 1 {
                assert(s.drop_last()[k] == x);
                assert(s.drop_last().contains(x));
                assert(p.contains(x));
                let j = choose|j: int| 0 <= j < p.len() && p[j] == x;
                assert(d[j] == x);
            } else if p.contains(x) {
                let j = choose|j: int| 0 <= j < p.len() && p[j] == x;
                assert(d[j] == x);
            } else {
                assert(d[d.len() - 1] == x);
            }
        }
        assert forall|k1: int, k2: int| 0 <= k1 < k2 < d.len() implies #[trigger] d[k1]
            != #[trigger] d[k2] by {
            if k2 < p.len() {
                assert(d[k1] == p[k1] && d[k2] == p[k2]);
            } else if !p.contains(s.last()) {
                assert(d[k2] == s.last());
                assert(d[k1] == p[k1]);
                assert(p.contains(p[k1]));
            }
        }
    }
}

/// The distinct variables an instruction touches, each once, definition
/// first: the query below reports one pairing per distinct
/// (instruction, variable), never deduplicating across distinct instructions
/// and never repeating a variable within one.
pub open spec fn touched_vars(ins: Instruction) -> Seq<Variable> {
    dedup_first(occ_head(ins) + ins.uses@)
}

/// An instruction touches exactly the variables it references, and the
/// touched list holds each at most once.
pub proof fn lemma_touched_vars(ins: Instruction)
    ensures
        forall|v: Variable| touched_vars(ins).contains(v) <==> references_var(ins, v),
        forall|k1: int, k2: int|
            0 <= k1 < k2 < touched_vars(ins).len() ==> #[trigger] touched_vars(ins)[k1]
                != #[trigger] touched_vars(ins)[k2],
{
    let base = occ_head(ins) + ins.uses@;
    lemma_dedup_first(base);
    assert forall|v: Variable| base.contains(v) implies references_var(ins, v) by {
        let k = choose|k: int| 0 <= k < base.len() && base[k] == v;
        if k >= occ_head(ins).len() {
            assert(ins.uses@[k - occ_head(ins).len()] == v);
        }
    }
    assert forall|v: Variable| references_var(ins, v) implies base.contains(v) by {
        if defines_var(ins, v) {
            assert(base[0] == v);
        } else {
            let k = choose|k: int| 0 <= k < ins.uses@.len() && ins.uses@[k] == v;
            assert(base[occ_head(ins).len() + k] == v);
        }
    }
}

/// The first `k` touched variables of `ins`, each paired with the same
/// reference-source record.
pub open spec fn pair_refs(ins: Instruction, g: FunctionGraphType, k: int) -> Seq<
    VariableReferenceSource,
>
    decreases k,
{
    if k <= 0 {
        Seq::empty()
    } else {
        pair_refs(ins, g, k - 1).push(
            VariableReferenceSource { var: touched_vars(ins)[k - 1], source: ref_of(ins, g) },
        )
    }
}

/// Whether an instruction falls in the query's scope: decoded by the queried
/// architecture, and inside the half-open range `[addr, addr + l)` when a
/// length `l` is given, anywhere in the function when it is not.
pub open spec fn in_query(ins: Instruction, addr: u64, length: Option<u64>, arch: u32) -> bool {
    &&& ins.arch == arch
    &&& match length {
        Some(l) => addr <= ins.address < addr + l,
        None => true,
    }
}

/// The variable references among the first `n` instructions that the query
/// selects: for each selected instruction, one pairing per distinct touched
/// variable, in layout order.
pub open spec fn range_refs(
    instrs: Seq<Instruction>,
    addr: u64,
    length: Option<u64>,
    arch: u32,
    g: FunctionGraphType,
    n: int,
) -> Seq<VariableReferenceSource>
    decreases n,
{
    if n <= 0 {
        Seq::empty()
    } else {
        let prefix = range_refs(instrs, addr, length, arch, g, n - 1);
        if in_query(instrs[n - 1], addr, length, arch) {
            prefix + pair_refs(instrs[n - 1], g, touched_vars(instrs[n - 1]).len() as int)
        } else {
            prefix
        }
    }
}

/// Whether `vs` holds `v`.
fn vec_contains(vs: &Vec<Variable>, v: &Variable) -> (r: bool)
    ensures
        r == vs@.contains(*v),
{
    let n = vs.len();
    let mut i: usize = 0;
    while i < n
        invariant
            i <= n,
            n == vs@.len(),
            forall|j: int| 0 <= j < i ==> vs@[j] != *v,
        decreases n - i,
    {
        if vs[i] == *v {
            return true;
        }
        i = i + 1;
    }
    false
}

impl MediumLevelILFunction {
    /// The IL-layer graph this container's references belong to: the
    /// medium-level layer, in its SSA form for a projected container.
    pub open spec fn graph_kind(self) -> FunctionGraphType {
        if self.is_ssa {
            FunctionGraphType::MediumLevelILSSAForm
        } else {
            FunctionGraphType::MediumLevelIL
        }
    }

    /// Exec mirror of [`Self::graph_kind`].
    pub fn graph_type(&self) -> (r: FunctionGraphType)
        ensures
            r == self.graph_kind(),
    {
        if self.is_ssa {
            FunctionGraphType::MediumLevelILSSAForm
        } else {
            FunctionGraphType::MediumLevelIL
        }
    }

    /// Every definition site of `var`, as linear instruction positions in
    /// increasing order (see [`lemma_def_indices_characterize`] for the full
    /// characterization: sound, complete and ordered).
    pub fn get_var_definitions(&self, var: &Variable) -> (r: MediumLevelILInstructionList)
        ensures
            r.indices@ == def_indices(self.instructions@, *var, self.instructions@.len() as int),
    {
        let n = self.instructions.len();
        let mut indices: Vec<usize> = Vec::new();
        let mut i: usize = 0;
        while i < n
            invariant
                i <= n,
                n == self.instructions@.len(),
                indices@ == def_indices(self.instructions@, *var, i as int),
            decreases n - i,
        {
            let ins = &self.instructions[i];
            match &ins.defines {
                Some(d) => {
                    if *d == *var {
                        indices.push(i);
                    }
                },
                None => {},
            }
            i = i + 1;
        }
        MediumLevelILInstructionList { indices }
    }

    /// Every reference (definition or use) to `var` in this function, one
    /// record per referencing instruction in linear-position order, each
    /// tagged with this container's IL-layer graph.
    pub fn var_refs(&self, var: &Variable) -> (r: Vec<ILReferenceSource>)
        ensures
            r@ == refs_spec(
                self.instructions@,
                *var,
                self.graph_kind(),
                self.instructions@.len() as int,
            ),
    {
        let g = self.graph_type();
        let n = self.instructions.len();
        let mut out: Vec<ILReferenceSource> = Vec::new();
        let mut i: usize = 0;
        while i < n
            invariant
                i <= n,
                n == self.instructions@.len(),
                g == self.graph_kind(),
                out@ == refs_spec(self.instructions@, *var, g, i as int),
            decreases n - i,
        {
            let ins = &self.instructions[i];
            if self.references(ins, var) {
                out.push(
                    ILReferenceSource {
                        arch: ins.arch,
                        addr: ins.address,
                        graph_type: g,
                        expr_index: ins.expr_index,
                    },
                );
            }
            i = i + 1;
        }
        out
    }

    /// Every variable reference the query selects, paired with the variable
    /// it refers to. An instruction is selected when it was decoded by `arch`
    /// — the function's own architecture when omitted, so an explicit
    /// differing architecture scopes the results to that architecture's
    /// decoding — and lies in the half-open range `[addr, addr + length)`,
    /// or anywhere in the function when `length` is omitted. One pairing per
    /// distinct (instruction, variable): distinct call sites sharing an
    /// address are reported separately, never merged.
    pub fn var_refs_from(&self, addr: u64, length: Option<u64>, arch: Option<u32>) -> (r: Vec<
        VariableReferenceSource,
    >)
        ensures
            r@ == range_refs(
                self.instructions@,
                addr,
                length,
                match arch {
                    Some(a) => a,
                    None => self.owner.arch,
                },
                self.graph_kind(),
                self.instructions@.len() as int,
            ),
    {
        let qa = match arch {
            Some(a) => a,
            None => self.owner.arch,
        };
        let g = self.graph_type();
        let n = self.instructions.len();
        let mut out: Vec<VariableReferenceSource> = Vec::new();
        let mut i: usize = 0;
        while i < n
            invariant
                i <= n,
                n == self.instructions@.len(),
                g == self.graph_kind(),
                qa == match arch {
                    Some(a) => a,
                    None => self.owner.arch,
                },
                out@ == range_refs(self.instructions@, addr, length, qa, g, i as int),
            decreases n - i,
        {
            let ins = &self.instructions[i];
            let in_range = match length {
                Some(l) => ins.address >= addr && ins.address - addr < l,
                None => true,
            };
            if ins.arch == qa && in_range {
                let mut occ: Vec<Variable> = Vec::new();
                match &ins.defines {
                    Some(v) => {
                        occ.push(*v);
                    },
                    None => {},
                }
                proof {
                    assert(ins.uses@.take(0) =~= Seq::<Variable>::empty());
                    match ins.defines {
                        Some(v) => {
                            assert(occ_head(*ins) =~= seq![v]);
                            assert(seq![v].drop_last() =~= Seq::<Variable>::empty());
                            assert(dedup_first(Seq::<Variable>::empty())
                                =~= Seq::<Variable>::empty());
                            assert(dedup_first(seq![v]) =~= seq![v]);
                        },
                        None => {
                            assert(occ_head(*ins) =~= Seq::<Variable>::empty());
                        },
                    }
                    assert(occ_head(*ins) + ins.uses@.take(0) =~= occ_head(*ins));
                    assert(occ@ == dedup_first(occ_head(*ins) + ins.uses@.take(0)));
                }
                let m = ins.uses.len();
                let mut k: usize = 0;
                while k < m
                    invariant
                        k <= m,
                        m == ins.uses@.len(),
                        occ@ == dedup_first(occ_head(*ins) + ins.uses@.take(k as int)),
                    decreases m - k,
                {
                    let u = &ins.uses[k];
                    proof {
                        let base = occ_head(*ins) + ins.uses@.take(k + 1);
                        assert(base.drop_last() =~= occ_head(*ins) + ins.uses@.take(k as int));
                        assert(base.last() == ins.uses@[k as int]);
                    }
                    if !vec_contains(&occ, u) {
                        occ.push(*u);
                    }
                    k = k + 1;
                }
                proof {
                    assert(ins.uses@.take(m as int) =~= ins.uses@);
                    assert(occ@ == touched_vars(*ins));
                }
                let src = ILReferenceSource {
                    arch: ins.arch,
                    addr: ins.address,
                    graph_type: g,
                    expr_index: ins.expr_index,
                };
                let t = occ.len();
                let mut q: usize = 0;
                while q < t
                    invariant
                        q <= t,
                        t == occ@.len(),
                        occ@ == touched_vars(*ins),
                        src == ref_of(*ins, g),
                        out@ == range_refs(self.instructions@, addr, length, qa, g, i as int)
                            + pair_refs(*ins, g, q as int),
                    decreases t - q,
                {
                    out.push(VariableReferenceSource { var: occ[q], source: src });
                    q = q + 1;
                }
                proof {
                    assert(out@ =~= range_refs(
                        self.instructions@,
                        addr,
                        length,
                        qa,
                        g,
                        i + 1,
                    ));
                }
            } else {
                proof {
                    assert(!in_query(self.instructions@[i as int], addr, length, qa));
                }
            }
            i = i + 1;
        }
        out
    }

    /// Whether `ins` assigns or reads `var`.
    fn references(&self, ins: &Instruction, var: &Variable) -> (r: bool)
        ensures
            r == references_var(*ins, *var),
    {
        match &ins.defines {
            Some(d) => {
                if *d == *var {
                    return true;
                }
            },
            None => {},
        }
        let m = ins.uses.len();
        let mut k: usize = 0;
        while k < m
            invariant
                k <= m,
                m == ins.uses@.len(),
                forall|q: int| 0 <= q < k ==> ins.uses@[q] != *var,
            decreases m - k,
        {
            if ins.uses[k] == *var {
                return true;
            }
            k = k + 1;
        }
        false
    }
}

} // verus!
