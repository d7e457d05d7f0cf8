//! Fitness scoring and the evaluation pipeline.
//!
//! A `Creature` is one candidate; an `Evaluator` holds the frequency
//! sketch and the one fitness strategy chosen at construction.  Scoring a
//! batch is two-phase: every candidate is scored against the sketch as it
//! stood before the batch, and only then is the sketch updated with the
//! candidates' visited addresses.

use vstd::prelude::*;

use crate::addr_set::{addr_set_contents, AddrSet};
use crate::fitness::{Objective, Weighted};
use crate::profile::{
    set_of, lemma_set_of_contains, written_addresses, ratio_scaled, HasProfile, Profile,
    ProfileView,
};
use crate::profiler::Block;
use crate::sketch::CountMinSketch;

verus! {

/// Number of one bits among the lowest `n` bits of `x`.
pub open spec fn pop_below(x: u64, n: nat) -> nat
    decreases n,
{
    if n == 0 {
        0
    } else {
        pop_below(x, (n - 1) as nat) + (if (x >> ((n - 1) as u64)) & 1 == 1 {
            1nat
        } else {
            0nat
        })
    }
}

/// Number of one bits of `x`.
pub open spec fn popcount(x: u64) -> nat {
    pop_below(x, 64)
}

/// Counts the one bits of `x`.
pub fn popcount64(x: u64) -> (r: u32)
    ensures
        r == popcount(x),
        r <= 64,
{
    let mut c: u32 = 0;
    let mut i: u64 = 0;
    while i < 64
        invariant
            i <= 64,
            c == pop_below(x, i as nat),
            c <= i,
        decreases 64 - i,
    {
        let b = (x >> i) & 1;
        proof {
            assert(b == 0 || b == 1) by (bit_vector)
                requires
                    b == (x >> i) & 1,
            ;
        }
        c = c + (b as u32);
        i += 1;
    }
    c
}

/// Bitwise AND across the values of a register state, all bits set when
/// there are none.
pub open spec fn conj_of(regs: Seq<(u64, u64)>) -> u64
    decreases regs.len(),
{
    if regs.len() == 0 {
        0xffff_ffff_ffff_ffff
    } else {
        conj_of(regs.drop_last()) & regs.last().1
    }
}

/// Folds the register values of one run with bitwise AND.
pub fn conjunction(regs: &Vec<(u64, u64)>) -> (r: u64)
    ensures
        r == conj_of(regs@),
{
    let mut c: u64 = 0xffff_ffff_ffff_ffff;
    let mut i: usize = 0;
    proof {
        assert(regs@.take(0) =~= Seq::<(u64, u64)>::empty());
    }
    while i < regs.len()
        invariant
            i <= regs@.len(),
            c == conj_of(regs@.take(i as int)),
        decreases regs@.len() - i,
    {
        proof {
            assert(regs@.take(i as int + 1).drop_last() =~= regs@.take(i as int));
        }
        c = c & regs[i].1;
        i += 1;
    }
    proof {
        assert(regs@.take(i as int) =~= regs@);
    }
    c
}

/// Number of runs that captured a CPU fault.
pub open spec fn crash_count(errs: Seq<Option<crate::profiler::CpuError>>) -> int
    decreases errs.len(),
{
    if errs.len() == 0 {
        0
    } else {
        crash_count(errs.drop_last()) + (if errs.last() is Some {
            1int
        } else {
            0int
        })
    }
}

/// Counts the runs of the aggregate that captured a CPU fault.
pub fn count_crashes(p: &Profile) -> (r: u64)
    ensures
        r == crash_count(p@.cpu_errors),
{
    let mut c: u64 = 0;
    let mut i: usize = 0;
    proof {
        assert(p@.cpu_errors.take(0) =~= Seq::<Option<crate::profiler::CpuError>>::empty());
    }
    while i < p.cpu_errors.len()
        invariant
            i <= p@.cpu_errors.len(),
            p@.cpu_errors.len() == p.cpu_errors@.len(),
            c == crash_count(p@.cpu_errors.take(i as int)),
            c <= i,
        decreases p@.cpu_errors.len() - i,
    {
        proof {
            assert(p@.cpu_errors.take(i as int + 1).drop_last() =~= p@.cpu_errors.take(i as int));
        }
        if p.cpu_errors[i].is_some() {
            c = c + 1;
        }
        i += 1;
    }
    proof {
        assert(p@.cpu_errors.take(i as int) =~= p@.cpu_errors);
    }
    c
}

/// A target register pattern: (register id, wanted value) pairs.
#[derive(Clone, Debug)]
pub struct RegisterPattern {
    pub entries: Vec<(u64, u64)>,
}

/// Distance contributed by one pattern entry: the Hamming distance to the
/// run's value of that register, or the full word width if the register
/// was not read.
pub open spec fn pattern_term(want: (u64, u64), regs: Seq<(u64, u64)>) -> int {
    match crate::assoc_lookup(regs, want.0) {
        Some(v) => popcount(want.1 ^ v) as int,
        None => 64,
    }
}

/// Distance between a register pattern and one run's final registers.
pub open spec fn pattern_distance(pattern: Seq<(u64, u64)>, regs: Seq<(u64, u64)>) -> int
    decreases pattern.len(),
{
    if pattern.len() == 0 {
        0
    } else {
        pattern_distance(pattern.drop_last(), regs) + pattern_term(pattern.last(), regs)
    }
}

impl RegisterPattern {
    /// Patterns stay small enough that the distance fits a 64-bit score.
    pub open spec fn wf(&self) -> bool {
        self.entries@.len() <= u32::MAX
    }

    /// Sum over the pattern of per-register Hamming distances to the
    /// run's final registers; missing registers cost the full word width.
    pub fn distance_from_register_state(&self, regs: &Vec<(u64, u64)>) -> (r: u64)
        requires
            self.wf(),
        ensures
            r == pattern_distance(self.entries@, regs@),
    {
        let mut acc: u64 = 0;
        let mut i: usize = 0;
        proof {
            assert(self.entries@.take(0) =~= Seq::<(u64, u64)>::empty());
        }
        while i < self.entries.len()
            invariant
                i <= self.entries@.len(),
                self.entries@.len() <= u32::MAX,
                acc == pattern_distance(self.entries@.take(i as int), regs@),
                acc <= 64 * i,
            decreases self.entries@.len() - i,
        {
            proof {
                assert(self.entries@.take(i as int + 1).drop_last() =~= self.entries@.take(
                    i as int,
                ));
            }
            let (id, want) = self.entries[i];
            let term: u64 = match crate::profiler::lookup_register(regs, id) {
                Some(v) => popcount64(want ^ v) as u64,
                None => 64,
            };
            acc = acc + term;
            i += 1;
        }
        proof {
            assert(self.entries@.take(i as int) =~= self.entries@);
        }
        acc
    }
}

/// The addresses covered by one executed basic block.
pub open spec fn block_addrs(b: Block) -> Set<u64> {
    Set::new(|a: u64| b.entry <= a < b.entry + b.size)
}

/// All executed blocks of the aggregate, flattened in run order.
pub open spec fn flat_blocks(paths: Seq<Seq<Block>>) -> Seq<Block>
    decreases paths.len(),
{
    if paths.len() == 0 {
        Seq::empty()
    } else {
        flat_blocks(paths.drop_last()) + paths.last()
    }
}

/// Union of the addresses covered by a block sequence.
pub open spec fn blocks_addrs(s: Seq<Block>) -> Set<u64>
    decreases s.len(),
{
    if s.len() == 0 {
        Set::empty()
    } else {
        blocks_addrs(s.drop_last()).union(block_addrs(s.last()))
    }
}

/// The distinct addresses visited by the aggregate's executed blocks.
pub open spec fn visited_addresses(v: ProfileView) -> Set<u64> {
    blocks_addrs(flat_blocks(v.paths))
}

/// Union of the per-run executed-gadget sets.
pub open spec fn gadget_union(sets: Seq<Set<u64>>) -> Set<u64>
    decreases sets.len(),
{
    if sets.len() == 0 {
        Set::empty()
    } else {
        gadget_union(sets.drop_last()).union(sets.last())
    }
}

/// Flattens the block paths of all runs, in run order.
fn all_blocks(p: &Profile) -> (r: Vec<Block>)
    ensures
        r@ == flat_blocks(p@.paths),
        p@.wf() ==> forall|k: int| 0 <= k < r@.len() ==> (#[trigger] r@[k]).valid(),
{
    let ghost paths = p@.paths;
    let mut out: Vec<Block> = Vec::new();
    let mut i: usize = 0;
    proof {
        assert(out@ =~= flat_blocks(paths.take(0)));
    }
    while i < p.paths.len()
        invariant
            i <= paths.len(),
            paths == p@.paths,
            p.paths@.len() == paths.len(),
            out@ == flat_blocks(paths.take(i as int)),
            p@.wf() ==> forall|k: int| 0 <= k < out@.len() ==> (#[trigger] out@[k]).valid(),
        decreases paths.len() - i,
    {
        let ghost row = paths[i as int];
        let mut j: usize = 0;
        proof {
            assert(out@ =~= flat_blocks(paths.take(i as int)) + row.take(0));
        }
        while j < p.paths[i].len()
            invariant
                i < paths.len(),
                j <= row.len(),
                paths == p@.paths,
                p.paths@.len() == paths.len(),
                p.paths@[i as int]@ == row,
                out@ == flat_blocks(paths.take(i as int)) + row.take(j as int),
                p@.wf() ==> forall|k: int| 0 <= k < out@.len() ==> (#[trigger] out@[k]).valid(),
            decreases row.len() - j,
        {
            out.push(p.paths[i][j]);
            j += 1;
            proof {
                assert(row.take(j as int) =~= row.take(j as int - 1).push(row[j as int - 1]));
                assert(out@ =~= flat_blocks(paths.take(i as int)) + row.take(j as int));
                if p@.wf() {
                    assert((p@.paths[i as int])[j as int - 1].valid());
                }
            }
        }
        i += 1;
        proof {
            assert(row.take(row.len() as int) =~= row);
            assert(paths.take(i as int).drop_last() =~= paths.take(i as int - 1));
            assert(out@ =~= flat_blocks(paths.take(i as int)));
        }
    }
    proof {
        assert(paths.take(i as int) =~= paths);
    }
    out
}

/// The set of distinct code addresses the aggregate's runs visited.
pub fn visited_set(p: &Profile) -> (r: AddrSet)
    requires
        p@.wf(),
    ensures
        addr_set_contents(r) == visited_addresses(p@),
        addr_set_contents(r).finite(),
{
    let flat = all_blocks(p);
    let ghost fs = flat@;
    let mut s = AddrSet::new();
    let mut i: usize = 0;
    proof {
        assert(addr_set_contents(s) =~= blocks_addrs(fs.take(0)));
    }
    while i < flat.len()
        invariant
            i <= fs.len(),
            flat@ == fs,
            forall|k: int| 0 <= k < fs.len() ==> (#[trigger] fs[k]).valid(),
            addr_set_contents(s) == blocks_addrs(fs.take(i as int)),
            addr_set_contents(s).finite(),
        decreases fs.len() - i,
    {
        let b = flat[i];
        let ghost before = addr_set_contents(s);
        let mut k: usize = 0;
        proof {
            assert(before.union(Set::new(|a: u64| b.entry <= a < b.entry + 0)) =~= before);
        }
        while k < b.size
            invariant
                k <= b.size,
                b.valid(),
                addr_set_contents(s) == before.union(Set::new(|a: u64| b.entry <= a < b.entry + k)),
                addr_set_contents(s).finite(),
            decreases b.size - k,
        {
            s.insert(b.entry + (k as u64));
            k += 1;
            proof {
                assert(Set::new(|a: u64| b.entry <= a < b.entry + k) =~= Set::new(
                    |a: u64| b.entry <= a < b.entry + (k - 1),
                ).insert((b.entry + (k - 1)) as u64));
                assert(addr_set_contents(s) =~= before.union(
                    Set::new(|a: u64| b.entry <= a < b.entry + k),
                ));
            }
        }
        i += 1;
        proof {
            assert(fs.take(i as int).drop_last() =~= fs.take(i as int - 1));
            assert(fs.take(i as int).last() == b);
            assert(Set::new(|a: u64| b.entry <= a < b.entry + b.size) =~= block_addrs(b));
            assert(addr_set_contents(s) =~= blocks_addrs(fs.take(i as int)));
        }
    }
    proof {
        assert(fs.take(i as int) =~= fs);
    }
    s
}

/// The set of distinct gadget addresses executed in any run.
pub fn gadget_union_set(p: &Profile) -> (r: AddrSet)
    ensures
        addr_set_contents(r) == gadget_union(p@.gadgets_executed),
{
    let ghost sets = p@.gadgets_executed;
    let mut acc = AddrSet::new();
    let mut i: usize = 0;
    proof {
        assert(addr_set_contents(acc) =~= gadget_union(sets.take(0)));
    }
    while i < p.gadgets_executed.len()
        invariant
            i <= sets.len(),
            sets == p@.gadgets_executed,
            p.gadgets_executed@.len() == sets.len(),
            addr_set_contents(acc) == gadget_union(sets.take(i as int)),
        decreases sets.len() - i,
    {
        let elems = p.gadgets_executed[i].to_vec();
        let ghost es = elems@;
        let ghost before = addr_set_contents(acc);
        let mut j: usize = 0;
        proof {
            assert(before.union(set_of(es.take(0))) =~= before);
        }
        while j < elems.len()
            invariant
                j <= es.len(),
                elems@ == es,
                addr_set_contents(acc) == before.union(set_of(es.take(j as int))),
            decreases es.len() - j,
        {
            acc.insert(elems[j]);
            j += 1;
            proof {
                assert(es.take(j as int).drop_last() =~= es.take(j as int - 1));
                assert(addr_set_contents(acc) =~= before.union(set_of(es.take(j as int))));
            }
        }
        i += 1;
        proof {
            assert(es.take(es.len() as int) =~= es);
            assert forall|a: u64| set_of(es).contains(a) <==> sets[i as int - 1].contains(
                a,
            ) by {
                lemma_set_of_contains(es, a);
            }
            assert(set_of(es) =~= sets[i as int - 1]);
            assert(sets.take(i as int).drop_last() =~= sets.take(i as int - 1));
            assert(addr_set_contents(acc) =~= gadget_union(sets.take(i as int)));
        }
    }
    proof {
        assert(sets.take(i as int) =~= sets);
    }
    acc
}

/// Adds the sketch's estimate of an address to an accumulator.
pub open spec fn query_add(sk: CountMinSketch) -> spec_fn(int, u64) -> int {
    |acc: int, a: u64| acc + sk.query_spec(a) as int
}

/// Sum of the sketch's estimates over a finite address set.
pub open spec fn query_sum(sk: CountMinSketch, s: Set<u64>) -> int {
    s.fold(0int, query_add(sk))
}

/// The frequency-pressure term: the mean sketch estimate over the visited
/// addresses, and 1 when nothing was visited.
pub open spec fn freq_score(sk: CountMinSketch, visited: Set<u64>) -> int {
    if visited.len() == 0 {
        1
    } else {
        query_sum(sk, visited) / (visited.len() as int)
    }
}

proof fn lemma_query_sum_empty(sk: CountMinSketch)
    ensures
        query_sum(sk, Set::<u64>::empty()) == 0,
{
    vstd::set::fold::lemma_fold_empty(0int, query_add(sk));
}

proof fn lemma_query_sum_insert(sk: CountMinSketch, s: Set<u64>, a: u64)
    requires
        s.finite(),
        !s.contains(a),
    ensures
        query_sum(sk, s.insert(a)) == query_sum(sk, s) + sk.query_spec(a),
{
    let f = query_add(sk);
    assert(vstd::set::fold::is_fun_commutative(f));
    vstd::set::fold::lemma_fold_insert(s, 0int, f, a);
    assert(f(s.fold(0int, f), a) == s.fold(0int, f) + sk.query_spec(a) as int);
}

/// Mean sketch estimate over a visited-address set, rounded down; 1 when
/// the set is empty.
pub fn mean_query(sk: &CountMinSketch, visited: &AddrSet) -> (r: u64)
    requires
        sk.wf(),
        addr_set_contents(*visited).finite(),
    ensures
        r == freq_score(*sk, addr_set_contents(*visited)),
{
    let ghost contents = addr_set_contents(*visited);
    let n = visited.len();
    if n == 0 {
        return 1;
    }
    let elems = visited.to_vec();
    let ghost es = elems@;
    proof {
        assert forall|a: u64| set_of(es).contains(a) <==> contents.contains(a) by {
            lemma_set_of_contains(es, a);
        }
        assert(set_of(es) =~= contents);
        assert forall|a: u64| es.to_set().contains(a) <==> set_of(es).contains(a) by {
            lemma_set_of_contains(es, a);
        }
        assert(es.to_set() =~= set_of(es));
        es.unique_seq_to_set();
        assert(es.len() == contents.len());
        assert(set_of(es.take(0)) =~= Set::<u64>::empty());
        lemma_query_sum_empty(*sk);
    }
    let mut sum: u128 = 0;
    let mut i: usize = 0;
    while i < elems.len()
        invariant
            i <= es.len(),
            elems@ == es,
            es.no_duplicates(),
            sk.wf(),
            sum == query_sum(*sk, set_of(es.take(i as int))),
            sum <= (i as int) * (u64::MAX as int),
            set_of(es.take(i as int)).finite(),
        decreases es.len() - i,
    {
        let q = sk.query(elems[i]);
        proof {
            let pre = set_of(es.take(i as int));
            lemma_set_of_contains(es.take(i as int), es[i as int]);
            if es.take(i as int).contains(es[i as int]) {
                let j = choose|j: int| 0 <= j < i && es.take(i as int)[j] == es[i as int];
                assert(es[j] == es[i as int]);
                assert(false);
            }
            lemma_query_sum_insert(*sk, pre, es[i as int]);
            assert(es.take(i as int + 1).drop_last() =~= es.take(i as int));
            assert(set_of(es.take(i as int + 1)) =~= pre.insert(es[i as int]));
            assert(sum + q <= (i as int) * (u64::MAX as int) + (u64::MAX as int));
        }
        sum = sum + (q as u128);
        i += 1;
    }
    proof {
        assert(es.take(i as int) =~= es);
        let n_int = es.len() as int;
        vstd::arithmetic::div_mod::lemma_div_is_ordered(
            sum as int,
            n_int * (u64::MAX as int),
            n_int,
        );
        vstd::arithmetic::div_mod::lemma_div_by_multiple(u64::MAX as int, n_int);
        assert((u64::MAX as int) * n_int == n_int * (u64::MAX as int)) by (nonlinear_arith);
    }
    (sum / (n as u128)) as u64
}

/// One candidate: a genetic payload, an identifying tag, and optionally a
/// cached execution profile and cached fitness.
pub struct Creature {
    pub payload: Vec<u8>,
    pub tag: u64,
    pub profile: Option<Profile>,
    pub fitness: Option<Weighted>,
}

impl Creature {
    /// A fresh, unevaluated candidate.
    pub fn new(payload: Vec<u8>) -> (r: Creature)
        ensures
            r.payload == payload,
            r.tag == 0,
            r.profile is None,
            r.fitness is None,
    {
        Creature { payload, tag: 0, profile: None, fitness: None }
    }

    /// Stores the computed fitness.
    pub fn set_fitness(&mut self, fitness: Weighted)
        ensures
            final(self).fitness == Some(fitness),
            final(self).payload == old(self).payload,
            final(self).tag == old(self).tag,
            final(self).profile == old(self).profile,
    {
        self.fitness = Some(fitness);
    }
}

impl HasProfile for Creature {
    fn profile(&self) -> Option<&Profile> {
        self.profile.as_ref()
    }

    fn add_profile(&mut self, profile: Profile) {
        self.profile = Some(profile);
    }
}

/// Why an evaluation configuration was rejected.
#[derive(Copy, Clone, PartialEq, Eq, Structural, Debug)]
pub enum EvalConfigError {
    ZeroCodeSize,
    ZeroWriteableSize,
    ZeroSketchWidth,
    OversizedPattern,
}

/// Read-only evaluation parameters: the executable-code and writeable
/// memory sizes the ratio terms divide by, the sketch width, and the
/// target register pattern, if any.
#[derive(Clone, Debug)]
pub struct EvalConfig {
    pub code_size: u64,
    pub writeable_size: u64,
    pub sketch_width: usize,
    pub register_pattern: Option<RegisterPattern>,
}

impl EvalConfig {
    pub open spec fn wf(&self) -> bool {
        &&& self.code_size > 0
        &&& self.writeable_size > 0
        &&& self.sketch_width > 0
        &&& match self.register_pattern {
            Some(p) => p.wf(),
            None => true,
        }
    }

    /// Validates the parameters; violations are fatal at startup, never
    /// discovered mid-run.
    pub fn new(
        code_size: u64,
        writeable_size: u64,
        sketch_width: usize,
        register_pattern: Option<RegisterPattern>,
    ) -> (r: Result<EvalConfig, EvalConfigError>)
        ensures
            r is Ok <==> code_size > 0 && writeable_size > 0 && sketch_width > 0 && (
            register_pattern matches Some(p) ==> p.wf()),
            r matches Ok(c) ==> c.code_size == code_size && c.writeable_size == writeable_size
                && c.sketch_width == sketch_width && c.register_pattern == register_pattern
                && c.wf(),
            code_size == 0 ==> r == Err::<EvalConfig, EvalConfigError>(
                EvalConfigError::ZeroCodeSize,
            ),
            code_size > 0 && writeable_size == 0 ==> r == Err::<EvalConfig, EvalConfigError>(
                EvalConfigError::ZeroWriteableSize,
            ),
            code_size > 0 && writeable_size > 0 && sketch_width == 0 ==> r == Err::<
                EvalConfig,
                EvalConfigError,
            >(EvalConfigError::ZeroSketchWidth),
    {
        if code_size == 0 {
            return Err(EvalConfigError::ZeroCodeSize);
        }
        if writeable_size == 0 {
            return Err(EvalConfigError::ZeroWriteableSize);
        }
        if sketch_width == 0 {
            return Err(EvalConfigError::ZeroSketchWidth);
        }
        if let Some(p) = &register_pattern {
            if p.entries.len() > u32::MAX as usize {
                return Err(EvalConfigError::OversizedPattern);
            }
        }
        Ok(EvalConfig { code_size, writeable_size, sketch_width, register_pattern })
    }
}

/// The scores the coverage strategy assigns, in insertion order.
pub open spec fn coverage_scores(v: ProfileView, sk: CountMinSketch, cfg: EvalConfig) -> Seq<
    (Objective, u64),
> {
    seq![
        (
            Objective::CodeCoverage,
            (crate::SCORE_SCALE - ratio_scaled(visited_addresses(v).len(), cfg.code_size)) as u64,
        ),
        (Objective::CodeFrequency, freq_score(sk, visited_addresses(v)) as u64),
        (Objective::GadgetsExecuted, gadget_union(v.gadgets_executed).len() as u64),
        (
            Objective::MemRatioWritten,
            (crate::SCORE_SCALE - ratio_scaled(written_addresses(v).len(), cfg.writeable_size))
                as u64,
        ),
    ]
}

/// The scores the register-pattern strategy assigns, in insertion order.
pub open spec fn pattern_scores(v: ProfileView, pat: RegisterPattern, cfg: EvalConfig) -> Seq<
    (Objective, u64),
> {
    seq![
        (Objective::RegisterError, pattern_distance(pat.entries@, v.registers[0]) as u64),
        (
            Objective::MemRatioWritten,
            (crate::SCORE_SCALE - ratio_scaled(written_addresses(v).len(), cfg.writeable_size))
                as u64,
        ),
        (Objective::CrashCount, crash_count(v.cpu_errors) as u64),
        (Objective::GadgetsExecuted, gadget_union(v.gadgets_executed).len() as u64),
    ]
}

/// The scores the register-conjunction strategy assigns, in insertion
/// order.
pub open spec fn conjunction_scores(v: ProfileView, cfg: EvalConfig) -> Seq<(Objective, u64)> {
    seq![
        (Objective::Zeroes, (64 - popcount(conj_of(v.registers.last()))) as u64),
        (Objective::GadgetsExecuted, gadget_union(v.gadgets_executed).len() as u64),
        (
            Objective::MemRatioWritten,
            ratio_scaled(written_addresses(v).len(), cfg.writeable_size),
        ),
    ]
}

/// Coverage fitness: code-coverage, frequency-pressure, gadget-count and
/// memory-write terms.  A candidate without a profile, or with a cached
/// fitness, comes back unchanged.
pub fn code_coverage_ff(creature: Creature, sketch: &CountMinSketch, config: &EvalConfig) -> (r:
    Creature)
    requires
        sketch.wf(),
        config.wf(),
        creature.profile matches Some(p) ==> p@.wf(),
    ensures
        r.payload == creature.payload,
        r.tag == creature.tag,
        r.profile == creature.profile,
        creature.fitness is Some ==> r.fitness == creature.fitness,
        creature.profile is None ==> r.fitness == creature.fitness,
        creature.fitness is None ==> (match creature.profile {
            Some(p) => match r.fitness {
                Some(w) => w.scores@ == coverage_scores(p@, *sketch, *config),
                None => false,
            },
            None => true,
        }),
{
    if creature.fitness.is_some() {
        return creature;
    }
    let w = match &creature.profile {
        None => {
            return creature;
        },
        Some(p) => {
            let visited = visited_set(p);
            let cov = crate::SCORE_SCALE - crate::profile::scaled_ratio(
                visited.len() as u64,
                config.code_size,
            );
            let freq = mean_query(sketch, &visited);
            let gads = gadget_union_set(p).len();
            let memr = crate::SCORE_SCALE - p.mem_write_ratio(config.writeable_size);
            let mut w = Weighted::new();
            w.insert(Objective::CodeCoverage, cov);
            w.insert(Objective::CodeFrequency, freq);
            w.insert(Objective::GadgetsExecuted, gads as u64);
            w.insert(Objective::MemRatioWritten, memr);
            proof {
                assert(w.scores@ =~= coverage_scores(p@, *sketch, *config));
            }
            w
        },
    };
    let mut c = creature;
    c.set_fitness(w);
    c
}

/// Register-pattern fitness: distance to the target pattern, memory-write,
/// crash-count and gadget-count terms.  Without a configured pattern, a
/// profile, or with a cached fitness, the candidate comes back unchanged.
pub fn register_pattern_ff(creature: Creature, sketch: &CountMinSketch, config: &EvalConfig) -> (r:
    Creature)
    requires
        sketch.wf(),
        config.wf(),
        creature.profile matches Some(p) ==> p@.wf() && (config.register_pattern is Some
            ==> p@.registers.len() >= 1),
    ensures
        r.payload == creature.payload,
        r.tag == creature.tag,
        r.profile == creature.profile,
        creature.fitness is Some ==> r.fitness == creature.fitness,
        creature.profile is None || config.register_pattern is None ==> r.fitness
            == creature.fitness,
        creature.fitness is None ==> (match creature.profile {
            Some(p) => match config.register_pattern {
                Some(pat) => match r.fitness {
                    Some(w) => w.scores@ == pattern_scores(p@, pat, *config),
                    None => false,
                },
                None => true,
            },
            None => true,
        }),
{
    if creature.fitness.is_some() {
        return creature;
    }
    let w = match &creature.profile {
        None => {
            return creature;
        },
        Some(p) => {
            match &config.register_pattern {
                None => {
                    return creature;
                },
                Some(pattern) => {
                    let register_error = pattern.distance_from_register_state(&p.registers[0]);
                    let memr = crate::SCORE_SCALE - p.mem_write_ratio(config.writeable_size);
                    let crashes = count_crashes(p);
                    let gads = gadget_union_set(p).len();
                    let mut w = Weighted::new();
                    w.insert(Objective::RegisterError, register_error);
                    w.insert(Objective::MemRatioWritten, memr);
                    w.insert(Objective::CrashCount, crashes);
                    w.insert(Objective::GadgetsExecuted, gads as u64);
                    proof {
                        assert(p@.registers[0] == p.registers@[0]@);
                        assert(w.scores@ =~= pattern_scores(p@, *pattern, *config));
                    }
                    w
                },
            }
        },
    };
    let mut c = creature;
    c.set_fitness(w);
    c
}

/// Register-conjunction fitness: a stuck-bits term from the AND across the
/// last run's final registers, gadget-count and memory-write terms.  A
/// candidate with no run, no profile, or a cached fitness comes back
/// unchanged.
pub fn register_conjunction_ff(
    creature: Creature,
    sketch: &CountMinSketch,
    config: &EvalConfig,
) -> (r: Creature)
    requires
        sketch.wf(),
        config.wf(),
        creature.profile matches Some(p) ==> p@.wf(),
    ensures
        r.payload == creature.payload,
        r.tag == creature.tag,
        r.profile == creature.profile,
        creature.fitness is Some ==> r.fitness == creature.fitness,
        creature.profile is None ==> r.fitness == creature.fitness,
        (match creature.profile {
            Some(p) => p@.registers.len() == 0 ==> r.fitness == creature.fitness,
            None => true,
        }),
        creature.fitness is None ==> (match creature.profile {
            Some(p) => p@.registers.len() > 0 ==> (match r.fitness {
                Some(w) => w.scores@ == conjunction_scores(p@, *config),
                None => false,
            }),
            None => true,
        }),
{
    if creature.fitness.is_some() {
        return creature;
    }
    let w = match &creature.profile {
        None => {
            return creature;
        },
        Some(p) => {
            if p.registers.len() == 0 {
                return creature;
            }
            let regs = &p.registers[p.registers.len() - 1];
            let conj = conjunction(regs);
            let zeroes = 64 - popcount64(conj);
            let gads = gadget_union_set(p).len();
            let ratio = p.mem_write_ratio(config.writeable_size);
            let mut w = Weighted::new();
            w.insert(Objective::Zeroes, zeroes as u64);
            w.insert(Objective::GadgetsExecuted, gads as u64);
            w.insert(Objective::MemRatioWritten, ratio);
            proof {
                assert(p@.registers.last() == p.registers@[p.registers@.len() - 1]@);
                assert(w.scores@ =~= conjunction_scores(p@, *config));
            }
            w
        },
    };
    let mut c = creature;
    c.set_fitness(w);
    c
}

/// The fitness strategy an evaluator applies to every candidate; chosen
/// once at construction, never dispatched per candidate.
#[derive(Copy, Clone, PartialEq, Eq, Structural, Debug)]
pub enum FitnessStrategy {
    CodeCoverage,
    RegisterPattern,
    RegisterConjunction,
}

/// The scores the chosen strategy assigns to a profiled candidate, or
/// `None` where it assigns none.
pub open spec fn strategy_scores(
    strategy: FitnessStrategy,
    v: ProfileView,
    sk: CountMinSketch,
    cfg: EvalConfig,
) -> Option<Seq<(Objective, u64)>> {
    match strategy {
        FitnessStrategy::CodeCoverage => Some(coverage_scores(v, sk, cfg)),
        FitnessStrategy::RegisterPattern => match cfg.register_pattern {
            Some(pat) => Some(pattern_scores(v, pat, cfg)),
            None => None,
        },
        FitnessStrategy::RegisterConjunction => if v.registers.len() > 0 {
            Some(conjunction_scores(v, cfg))
        } else {
            None
        },
    }
}

/// What the chosen strategy asks of a profile it is to score.
pub open spec fn profile_ok(strategy: FitnessStrategy, cfg: EvalConfig, v: ProfileView) -> bool {
    v.wf() && (strategy == FitnessStrategy::RegisterPattern && cfg.register_pattern is Some
        ==> v.registers.len() >= 1)
}

/// How a scored candidate relates to the candidate it came from: payload,
/// tag and profile are kept; a cached fitness is kept; a fresh fitness is
/// exactly what the strategy assigns against the given sketch.
pub open spec fn scored_rel(
    c: Creature,
    r: Creature,
    sk: CountMinSketch,
    cfg: EvalConfig,
    strategy: FitnessStrategy,
) -> bool {
    &&& r.payload == c.payload
    &&& r.tag == c.tag
    &&& r.profile == c.profile
    &&& (c.fitness is Some ==> r.fitness == c.fitness)
    &&& (c.profile is None ==> r.fitness == c.fitness)
    &&& (c.fitness is None ==> match c.profile {
        Some(p) => match strategy_scores(strategy, p@, sk, cfg) {
            Some(sc) => match r.fitness {
                Some(w) => w.scores@ == sc,
                None => false,
            },
            None => r.fitness is None,
        },
        None => true,
    })
}

/// Orchestrates scoring: holds the configuration, the frequency sketch,
/// and the one fitness strategy chosen at construction.
pub struct Evaluator {
    pub config: EvalConfig,
    pub sketch: CountMinSketch,
    pub strategy: FitnessStrategy,
}

impl Evaluator {
    pub open spec fn wf(&self) -> bool {
        self.config.wf() && self.sketch.wf()
    }

    pub fn new(config: EvalConfig, strategy: FitnessStrategy) -> (r: Evaluator)
        requires
            config.wf(),
        ensures
            r.wf(),
            r.config == config,
            r.strategy == strategy,
            r.sketch.history() == vstd::multiset::Multiset::<u64>::empty(),
    {
        let width = config.sketch_width;
        Evaluator { config, sketch: CountMinSketch::new(width), strategy }
    }

    /// Scores one candidate with the chosen strategy against the current
    /// sketch; reads the sketch only.
    pub fn score(&self, creature: Creature) -> (r: Creature)
        requires
            self.wf(),
            creature.profile matches Some(p) ==> profile_ok(self.strategy, self.config, p@),
        ensures
            scored_rel(creature, r, self.sketch, self.config, self.strategy),
    {
        match self.strategy {
            FitnessStrategy::CodeCoverage => code_coverage_ff(creature, &self.sketch, &self.config),
            FitnessStrategy::RegisterPattern => register_pattern_ff(
                creature,
                &self.sketch,
                &self.config,
            ),
            FitnessStrategy::RegisterConjunction => register_conjunction_ff(
                creature,
                &self.sketch,
                &self.config,
            ),
        }
    }

    /// Attaches a freshly produced run profile to the candidate, tags it,
    /// scores it, and feeds the run's visited addresses to the sketch.
    pub fn evaluate(&mut self, creature: Creature, profile: Profile) -> (r: Creature)
        requires
            old(self).wf(),
            profile_ok(old(self).strategy, old(self).config, profile@),
        ensures
            final(self).wf(),
            final(self).config == old(self).config,
            final(self).strategy == old(self).strategy,
            r.payload == creature.payload,
            r.profile == Some(profile),
            (match strategy_scores(old(self).strategy, profile@, old(self).sketch, old(self).config) {
                Some(sc) => match r.fitness {
                    Some(w) => w.scores@ == sc,
                    None => false,
                },
                None => r.fitness is None,
            }),
            forall|a: u64|
                final(self).sketch.history().count(a) == old(self).sketch.history().count(a) + (
                if visited_addresses(profile@).contains(a) {
                    1int
                } else {
                    0int
                }),
            forall|x: u64| final(self).sketch.query_spec(x) >= old(self).sketch.query_spec(x),
    {
        let vis = visited_set(&profile);
        let velems = vis.to_vec();
        let mut c = creature;
        c.fitness = None;
        c.tag = crate::rng::random_u64();
        c.profile = Some(profile);
        let scored = self.score(c);
        self.sketch.insert_all(&velems);
        proof {
            broadcast use vstd::seq_lib::group_to_multiset_ensures;
            broadcast use vstd::multiset::group_multiset_axioms;

            velems@.lemma_multiset_has_no_duplicates();
            assert forall|a: u64|
                final(self).sketch.history().count(a) == old(self).sketch.history().count(a) + (
                if visited_addresses(profile@).contains(a) {
                    1int
                } else {
                    0int
                }) by {
                if visited_addresses(profile@).contains(a) {
                    assert(velems@.contains(a));
                    assert(velems@.to_multiset().count(a) == 1);
                } else {
                    assert(!velems@.contains(a));
                    assert(velems@.to_multiset().count(a) == 0);
                }
            }
        }
        scored
    }

    /// Splits a batch into the candidates already carrying a profile and
    /// the fresh ones that still need the execution collaborator.
    pub fn partition_by_profile(batch: Vec<Creature>) -> (r: (Vec<Creature>, Vec<Creature>))
        ensures
            r.0@ == profiled_of(batch@),
            r.1@ == fresh_of(batch@),
    {
        let ghost orig = batch@;
        let mut batch = batch;
        let mut old_meat: Vec<Creature> = Vec::new();
        let mut fresh_meat: Vec<Creature> = Vec::new();
        let ghost mut i: int = 0;
        proof {
            assert(batch@ =~= orig.skip(0));
            assert(old_meat@ =~= profiled_of(orig.take(0)));
            assert(fresh_meat@ =~= fresh_of(orig.take(0)));
        }
        while batch.len() > 0
            invariant
                0 <= i <= orig.len(),
                batch@ == orig.skip(i),
                old_meat@ == profiled_of(orig.take(i)),
                fresh_meat@ == fresh_of(orig.take(i)),
            decreases batch@.len(),
        {
            let c = batch.remove(0);
            proof {
                assert(c == orig[i]);
                assert(batch@ =~= orig.skip(i + 1));
                assert(orig.take(i + 1).drop_last() =~= orig.take(i));
            }
            if c.profile.is_some() {
                old_meat.push(c);
            } else {
                fresh_meat.push(c);
            }
            proof {
                i = i + 1;
            }
        }
        proof {
            assert(orig.take(i) =~= orig);
        }
        (old_meat, fresh_meat)
    }

    /// Scores a whole batch in two phases: every candidate, freshly
    /// hatched or already profiled, is scored against the sketch as it
    /// stood before the batch; only then is the sketch updated with every
    /// candidate's visited addresses.
    pub fn eval_pipeline(&mut self, hatched: Vec<Creature>, old_meat: Vec<Creature>) -> (r: Vec<
        Creature,
    >)
        requires
            old(self).wf(),
            forall|i: int|
                0 <= i < hatched@.len() ==> (match (#[trigger] hatched@[i]).profile {
                    Some(p) => profile_ok(old(self).strategy, old(self).config, p@),
                    None => false,
                }),
            forall|i: int|
                0 <= i < old_meat@.len() ==> (match (#[trigger] old_meat@[i]).profile {
                    Some(p) => profile_ok(old(self).strategy, old(self).config, p@),
                    None => false,
                }),
        ensures
            final(self).wf(),
            final(self).config == old(self).config,
            final(self).strategy == old(self).strategy,
            r@.len() == hatched@.len() + old_meat@.len(),
            forall|i: int|
                0 <= i < hatched@.len() ==> scored_rel(
                    hatched@[i],
                    #[trigger] r@[i],
                    old(self).sketch,
                    old(self).config,
                    old(self).strategy,
                ),
            forall|i: int|
                hatched@.len() <= i < r@.len() ==> scored_rel(
                    old_meat@[i - hatched@.len()],
                    #[trigger] r@[i],
                    old(self).sketch,
                    old(self).config,
                    old(self).strategy,
                ),
            forall|a: u64|
                final(self).sketch.history().count(a) == old(self).sketch.history().count(a)
                    + visited_hits(r@, a),
            forall|x: u64| final(self).sketch.query_spec(x) >= old(self).sketch.query_spec(x),
    {
        let ghost horig = hatched@;
        let ghost oorig = old_meat@;
        let mut hatched = hatched;
        let mut old_meat = old_meat;
        let mut out: Vec<Creature> = Vec::new();
        let ghost mut i: int = 0;
        while hatched.len() > 0
            invariant
                0 <= i <= horig.len(),
                hatched@ == horig.skip(i),
                out@.len() == i,
                *self == *old(self),
                self.wf(),
                forall|k: int|
                    0 <= k < horig.len() ==> (match (#[trigger] horig[k]).profile {
                        Some(p) => profile_ok(self.strategy, self.config, p@),
                        None => false,
                    }),
                forall|k: int|
                    0 <= k < i ==> scored_rel(
                        horig[k],
                        #[trigger] out@[k],
                        self.sketch,
                        self.config,
                        self.strategy,
                    ),
            decreases hatched@.len(),
        {
            let c = hatched.remove(0);
            proof {
                assert(c == horig[i]);
                assert(hatched@ =~= horig.skip(i + 1));
            }
            let scored = self.score(c);
            out.push(scored);
            proof {
                i = i + 1;
            }
        }
        let ghost mut j: int = 0;
        while old_meat.len() > 0
            invariant
                0 <= j <= oorig.len(),
                old_meat@ == oorig.skip(j),
                out@.len() == horig.len() + j,
                *self == *old(self),
                self.wf(),
                forall|k: int|
                    0 <= k < oorig.len() ==> (match (#[trigger] oorig[k]).profile {
                        Some(p) => profile_ok(self.strategy, self.config, p@),
                        None => false,
                    }),
                forall|k: int|
                    0 <= k < horig.len() ==> scored_rel(
                        horig[k],
                        #[trigger] out@[k],
                        self.sketch,
                        self.config,
                        self.strategy,
                    ),
                forall|k: int|
                    horig.len() <= k < out@.len() ==> scored_rel(
                        oorig[k - horig.len()],
                        #[trigger] out@[k],
                        self.sketch,
                        self.config,
                        self.strategy,
                    ),
            decreases old_meat@.len(),
        {
            let c = old_meat.remove(0);
            proof {
                assert(c == oorig[j]);
                assert(old_meat@ =~= oorig.skip(j + 1));
            }
            let scored = self.score(c);
            out.push(scored);
            proof {
                j = j + 1;
            }
        }
        let mut k: usize = 0;
        proof {
            assert(out@.take(0) =~= Seq::<Creature>::empty());
        }
        while k < out.len()
            invariant
                k <= out@.len(),
                self.wf(),
                forall|m: int|
                    0 <= m < horig.len() ==> (match (#[trigger] horig[m]).profile {
                        Some(p) => profile_ok(old(self).strategy, old(self).config, p@),
                        None => false,
                    }),
                forall|m: int|
                    0 <= m < oorig.len() ==> (match (#[trigger] oorig[m]).profile {
                        Some(p) => profile_ok(old(self).strategy, old(self).config, p@),
                        None => false,
                    }),
                self.config == old(self).config,
                self.strategy == old(self).strategy,
                forall|a: u64|
                    self.sketch.history().count(a) == old(self).sketch.history().count(a)
                        + visited_hits(out@.take(k as int), a),
                forall|x: u64| self.sketch.query_spec(x) >= old(self).sketch.query_spec(x),
                out@.len() == horig.len() + oorig.len(),
                forall|m: int|
                    0 <= m < horig.len() ==> scored_rel(
                        horig[m],
                        #[trigger] out@[m],
                        old(self).sketch,
                        old(self).config,
                        old(self).strategy,
                    ),
                forall|m: int|
                    horig.len() <= m < out@.len() ==> scored_rel(
                        oorig[m - horig.len()],
                        #[trigger] out@[m],
                        old(self).sketch,
                        old(self).config,
                        old(self).strategy,
                    ),
            decreases out@.len() - k,
        {
            proof {
                if k < horig.len() {
                    assert(scored_rel(
                        horig[k as int],
                        out@[k as int],
                        old(self).sketch,
                        old(self).config,
                        old(self).strategy,
                    ));
                    assert(out@[k as int].profile == horig[k as int].profile);
                } else {
                    assert(scored_rel(
                        oorig[k - horig.len()],
                        out@[k as int],
                        old(self).sketch,
                        old(self).config,
                        old(self).strategy,
                    ));
                    assert(out@[k as int].profile == oorig[k - horig.len()].profile);
                }
            }
            let velems = match &out[k].profile {
                Some(p) => {
                    let vis = visited_set(p);
                    vis.to_vec()
                },
                None => Vec::new(),
            };
            self.sketch.insert_all(&velems);
            k += 1;
            proof {
                broadcast use vstd::seq_lib::group_to_multiset_ensures;
                broadcast use vstd::multiset::group_multiset_axioms;

                velems@.lemma_multiset_has_no_duplicates();
                assert(out@.take(k as int).drop_last() =~= out@.take(k as int - 1));
                assert(out@.take(k as int).last() == out@[k as int - 1]);
                assert forall|a: u64|
                    self.sketch.history().count(a) == old(self).sketch.history().count(a)
                        + visited_hits(out@.take(k as int), a) by {
                    match out@[k as int - 1].profile {
                        Some(p) => {
                            if visited_addresses(p@).contains(a) {
                                assert(velems@.contains(a));
                                assert(velems@.to_multiset().count(a) == 1);
                            } else {
                                assert(!velems@.contains(a));
                                assert(velems@.to_multiset().count(a) == 0);
                            }
                        },
                        None => {
                            assert(velems@.to_multiset().count(a) == 0);
                        },
                    }
                }
            }
        }
        proof {
            assert(out@.take(out@.len() as int) =~= out@);
        }
        out
    }
}

/// How many of these candidates' runs visited address `a`.
pub open spec fn visited_hits(creatures: Seq<Creature>, a: u64) -> int
    decreases creatures.len(),
{
    if creatures.len() == 0 {
        0
    } else {
        visited_hits(creatures.drop_last(), a) + (match creatures.last().profile {
            Some(p) => if visited_addresses(p@).contains(a) {
                1int
            } else {
                0int
            },
            None => 0,
        })
    }
}

/// The candidates of `s` that already carry a profile, in order.
pub open spec fn profiled_of(s: Seq<Creature>) -> Seq<Creature>
    decreases s.len(),
{
    if s.len() == 0 {
        Seq::empty()
    } else if s.last().profile is Some {
        profiled_of(s.drop_last()).push(s.last())
    } else {
        profiled_of(s.drop_last())
    }
}

/// The candidates of `s` that carry no profile yet, in order.
pub open spec fn fresh_of(s: Seq<Creature>) -> Seq<Creature>
    decreases s.len(),
{
    if s.len() == 0 {
        Seq::empty()
    } else if s.last().profile is None {
        fresh_of(s.drop_last()).push(s.last())
    } else {
        fresh_of(s.drop_last())
    }
}

} // verus!
