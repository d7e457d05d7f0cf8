//! Aggregate execution profile.
//!
//! A `Profile` combines the telemetry of many runs into parallel,
//! index-aligned sequences: element `i` of every per-run field describes
//! the same run.  Profiles are built by draining execution logs
//! ([`crate::profiler::Profiler`]) and merged with [`Profile::absorb`],
//! which keeps run order and alignment.

use vstd::prelude::*;

use crate::addr_set::{addr_set_contents, AddrSet};
use crate::profiler::{Block, CpuError, MemLogEntry, Profiler};

verus! {

/// Final register values of one run: (register id, value) pairs.
pub type RegisterState = Vec<(u64, u64)>;

/// The mathematical content of one run's frozen telemetry.
#[verifier::ext_equal]
pub ghost struct RunView {
    pub path: Seq<Block>,
    pub cpu_error: Option<CpuError>,
    pub emulation_micros: u64,
    pub registers: Seq<(u64, u64)>,
    pub gadgets: Set<u64>,
    pub writes: Seq<MemLogEntry>,
}

/// The set of elements of an address sequence.
pub open spec fn set_of(s: Seq<u64>) -> Set<u64>
    decreases s.len(),
{
    if s.len() == 0 {
        Set::empty()
    } else {
        set_of(s.drop_last()).insert(s.last())
    }
}

/// `set_of` holds exactly the elements of the sequence.
pub proof fn lemma_set_of_contains(s: Seq<u64>, a: u64)
    ensures
        set_of(s).contains(a) <==> s.contains(a),
    decreases s.len(),
{
    if s.len() == 0 {
    } else {
        lemma_set_of_contains(s.drop_last(), a);
        if s.contains(a) {
            let i = choose|i: int| 0 <= i < s.len() && s[i] == a;
            if i < s.len() - 1 {
                assert(s.drop_last()[i] == a);
            }
        } else {
            assert(forall|i: int| 0 <= i < s.len() - 1 ==> s.drop_last()[i] == s[i]);
        }
    }
}

/// What one execution log freezes to.
pub open spec fn run_view_of(p: Profiler) -> RunView {
    RunView {
        path: p.blocks().map_values(|t: (u64, usize)| Block { entry: t.0, size: t.1 }),
        cpu_error: p.cpu_error,
        emulation_micros: p.emulation_micros,
        registers: p.registers@,
        gadgets: set_of(p.gadgets()),
        writes: p.writes().map_values(
            |t: (u64, u64, usize, u64)|
                MemLogEntry {
                    program_counter: t.0,
                    address: t.1,
                    num_bytes_written: t.2,
                    value: t.3,
                },
        ),
    }
}

/// The mathematical content of an aggregate profile.
#[verifier::ext_equal]
pub ghost struct ProfileView {
    pub paths: Seq<Seq<Block>>,
    pub cpu_errors: Seq<Option<CpuError>>,
    pub emulation_times: Seq<u64>,
    pub registers: Seq<Seq<(u64, u64)>>,
    pub gadgets_executed: Seq<Set<u64>>,
    pub write_logs: Seq<Seq<MemLogEntry>>,
    pub executable: bool,
}

impl ProfileView {
    /// All per-run sequences have one element per run.
    pub open spec fn aligned(self) -> bool {
        &&& self.cpu_errors.len() == self.paths.len()
        &&& self.emulation_times.len() == self.paths.len()
        &&& self.registers.len() == self.paths.len()
        &&& self.gadgets_executed.len() == self.paths.len()
        &&& self.write_logs.len() == self.paths.len()
    }

    /// Every recorded block and write stays inside the address space, and
    /// every per-run gadget set is finite.
    pub open spec fn valid_events(self) -> bool {
        &&& forall|i: int, j: int|
            0 <= i < self.paths.len() && 0 <= j < self.paths[i].len() ==> (
            #[trigger] self.paths[i][j]).valid()
        &&& forall|i: int, j: int|
            0 <= i < self.write_logs.len() && 0 <= j < self.write_logs[i].len() ==> (
            #[trigger] self.write_logs[i][j]).valid()
        &&& forall|i: int|
            0 <= i < self.gadgets_executed.len() ==> (#[trigger] self.gadgets_executed[i]).finite()
    }

    pub open spec fn wf(self) -> bool {
        self.aligned() && self.valid_events()
    }
}

/// Field-by-field concatenation of two aggregate views, run order kept,
/// with the `executable` flags conjoined.
pub open spec fn merged(a: ProfileView, b: ProfileView) -> ProfileView {
    ProfileView {
        paths: a.paths + b.paths,
        cpu_errors: a.cpu_errors + b.cpu_errors,
        emulation_times: a.emulation_times + b.emulation_times,
        registers: a.registers + b.registers,
        gadgets_executed: a.gadgets_executed + b.gadgets_executed,
        write_logs: a.write_logs + b.write_logs,
        executable: a.executable && b.executable,
    }
}

/// The aggregate view built by collating the given runs in order.
pub open spec fn collated_view(runs: Seq<RunView>) -> ProfileView {
    ProfileView {
        paths: runs.map_values(|r: RunView| r.path),
        cpu_errors: runs.map_values(|r: RunView| r.cpu_error),
        emulation_times: runs.map_values(|r: RunView| r.emulation_micros),
        registers: runs.map_values(|r: RunView| r.registers),
        gadgets_executed: runs.map_values(|r: RunView| r.gadgets),
        write_logs: runs.map_values(|r: RunView| r.writes),
        executable: true,
    }
}

/// Aggregate profile over many runs; all per-run fields are index-aligned.
pub struct Profile {
    pub paths: Vec<Vec<Block>>,
    pub cpu_errors: Vec<Option<CpuError>>,
    pub emulation_times: Vec<u64>,
    pub registers: Vec<RegisterState>,
    pub gadgets_executed: Vec<AddrSet>,
    pub write_logs: Vec<Vec<MemLogEntry>>,
    pub executable: bool,
}

impl View for Profile {
    type V = ProfileView;

    open spec fn view(&self) -> ProfileView {
        ProfileView {
            paths: self.paths@.map_values(|p: Vec<Block>| p@),
            cpu_errors: self.cpu_errors@,
            emulation_times: self.emulation_times@,
            registers: self.registers@.map_values(|r: RegisterState| r@),
            gadgets_executed: self.gadgets_executed@.map_values(
                |s: AddrSet| addr_set_contents(s),
            ),
            write_logs: self.write_logs@.map_values(|w: Vec<MemLogEntry>| w@),
            executable: self.executable,
        }
    }
}

/// `map_values` distributes over sequence concatenation.
proof fn lemma_map_values_add<A, B>(a: Seq<A>, b: Seq<A>, f: spec_fn(A) -> B)
    ensures
        (a + b).map_values(f) == a.map_values(f) + b.map_values(f),
{
    assert((a + b).map_values(f) =~= a.map_values(f) + b.map_values(f));
}

/// Merging aggregate profiles is associative along the run dimension.
pub proof fn lemma_merged_associative(a: ProfileView, b: ProfileView, c: ProfileView)
    ensures
        merged(merged(a, b), c) == merged(a, merged(b, c)),
{
    assert(merged(merged(a, b), c) =~= merged(a, merged(b, c)));
}

/// Collating a run sequence split into `xs` then `ys` equals collating the
/// two halves separately and merging the results in the same order.
pub proof fn lemma_collate_split(xs: Seq<RunView>, ys: Seq<RunView>)
    ensures
        collated_view(xs + ys) == merged(collated_view(xs), collated_view(ys)),
{
    lemma_map_values_add(xs, ys, |r: RunView| r.path);
    lemma_map_values_add(xs, ys, |r: RunView| r.cpu_error);
    lemma_map_values_add(xs, ys, |r: RunView| r.emulation_micros);
    lemma_map_values_add(xs, ys, |r: RunView| r.registers);
    lemma_map_values_add(xs, ys, |r: RunView| r.gadgets);
    lemma_map_values_add(xs, ys, |r: RunView| r.writes);
    assert(collated_view(xs + ys) =~= merged(collated_view(xs), collated_view(ys)));
}

/// Merge associativity for any split of a run sequence: absorbing the
/// collation of `xs ++ ys` into an aggregate equals absorbing the
/// collation of `xs` and then the collation of `ys`.
pub proof fn lemma_absorb_collate_split(p: ProfileView, xs: Seq<RunView>, ys: Seq<RunView>)
    ensures
        merged(p, collated_view(xs + ys)) == merged(
            merged(p, collated_view(xs)),
            collated_view(ys),
        ),
{
    lemma_collate_split(xs, ys);
    lemma_merged_associative(p, collated_view(xs), collated_view(ys));
}

impl Profile {
    /// An aggregate over no runs at all; the identity of [`Profile::absorb`].
    pub fn new() -> (r: Profile)
        ensures
            r@ == collated_view(Seq::<RunView>::empty()),
            r@.wf(),
    {
        let p = Profile {
            paths: Vec::new(),
            cpu_errors: Vec::new(),
            emulation_times: Vec::new(),
            registers: Vec::new(),
            gadgets_executed: Vec::new(),
            write_logs: Vec::new(),
            executable: true,
        };
        proof {
            assert(p@ =~= collated_view(Seq::<RunView>::empty()));
        }
        p
    }

    /// Concatenates `other`'s per-run sequences onto `self`, field by
    /// field, keeping relative run order, and conjoins the `executable`
    /// flags.
    pub fn absorb(&mut self, other: Profile)
        ensures
            final(self)@ == merged(old(self)@, other@),
            old(self)@.wf() && other@.wf() ==> final(self)@.wf(),
    {
        let Profile {
            paths: mut paths,
            cpu_errors: mut cpu_errors,
            emulation_times: mut emulation_times,
            registers: mut registers,
            gadgets_executed: mut gadgets_executed,
            write_logs: mut write_logs,
            executable,
        } = other;
        self.paths.append(&mut paths);
        self.cpu_errors.append(&mut cpu_errors);
        self.emulation_times.append(&mut emulation_times);
        self.registers.append(&mut registers);
        self.gadgets_executed.append(&mut gadgets_executed);
        self.write_logs.append(&mut write_logs);
        self.executable = self.executable && executable;
        proof {
            lemma_map_values_add(old(self).paths@, other.paths@, |p: Vec<Block>| p@);
            lemma_map_values_add(old(self).registers@, other.registers@, |r: RegisterState| r@);
            lemma_map_values_add(
                old(self).gadgets_executed@,
                other.gadgets_executed@,
                |s: AddrSet| addr_set_contents(s),
            );
            lemma_map_values_add(
                old(self).write_logs@,
                other.write_logs@,
                |w: Vec<MemLogEntry>| w@,
            );
            assert(self@ =~= merged(old(self)@, other@));
            if old(self)@.wf() && other@.wf() {
                lemma_merged_wf(old(self)@, other@);
            }
        }
    }

    /// Builds a fresh aggregate directly from the given execution logs, in
    /// order; identical to absorbing singleton profiles one by one.
    pub fn collate(profilers: Vec<Profiler>) -> (r: Profile)
        requires
            forall|i: int| 0 <= i < profilers@.len() ==> (#[trigger] profilers@[i]).wf(),
        ensures
            r@ == collated_view(profilers@.map_values(|p: Profiler| run_view_of(p))),
            r@.wf(),
    {
        let ghost orig = profilers@;
        let mut profilers = profilers;
        let mut acc = Profile::new();
        let ghost mut i: int = 0;
        proof {
            assert(orig.map_values(|p: Profiler| run_view_of(p)).take(0)
                =~= Seq::<RunView>::empty());
            assert(acc@ =~= collated_view(
                orig.map_values(|p: Profiler| run_view_of(p)).take(0),
            ));
        }
        while profilers.len() > 0
            invariant
                profilers@ == orig.skip(i),
                0 <= i <= orig.len(),
                forall|k: int| 0 <= k < orig.len() ==> (#[trigger] orig[k]).wf(),
                acc@ == collated_view(orig.map_values(|p: Profiler| run_view_of(p)).take(i)),
                acc@.wf(),
            decreases profilers@.len(),
        {
            let p = profilers.remove(0);
            proof {
                assert(p == orig[i]);
                assert(profilers@ =~= orig.skip(i + 1));
            }
            let single = freeze_one(p);
            acc.absorb(single);
            proof {
                let f = |p: Profiler| run_view_of(p);
                let views = orig.map_values(f);
                assert(views.take(i + 1) =~= views.take(i) + seq![run_view_of(orig[i])]);
                lemma_collate_split(views.take(i), seq![run_view_of(orig[i])]);
                assert(acc@ =~= collated_view(views.take(i + 1)));
                i = i + 1;
            }
        }
        proof {
            let views = orig.map_values(|p: Profiler| run_view_of(p));
            assert(views.take(i) =~= views);
        }
        acc
    }
}

/// Both halves of a merge well formed makes the merge well formed.
pub proof fn lemma_merged_wf(a: ProfileView, b: ProfileView)
    requires
        a.wf(),
        b.wf(),
    ensures
        merged(a, b).wf(),
{
    let m = merged(a, b);
    assert forall|i: int, j: int|
        0 <= i < m.paths.len() && 0 <= j < m.paths[i].len() implies (
    #[trigger] m.paths[i][j]).valid() by {
        if i < a.paths.len() {
            assert(m.paths[i] == a.paths[i]);
        } else {
            assert(m.paths[i] == b.paths[i - a.paths.len()]);
        }
    }
    assert forall|i: int, j: int|
        0 <= i < m.write_logs.len() && 0 <= j < m.write_logs[i].len() implies (
    #[trigger] m.write_logs[i][j]).valid() by {
        if i < a.write_logs.len() {
            assert(m.write_logs[i] == a.write_logs[i]);
        } else {
            assert(m.write_logs[i] == b.write_logs[i - a.write_logs.len()]);
        }
    }
    assert forall|i: int| 0 <= i < m.gadgets_executed.len() implies (
    #[trigger] m.gadgets_executed[i]).finite() by {
        if i < a.gadgets_executed.len() {
            assert(m.gadgets_executed[i] == a.gadgets_executed[i]);
        } else {
            assert(m.gadgets_executed[i] == b.gadgets_executed[i - a.gadgets_executed.len()]);
        }
    }
}

/// Drains one execution log into a one-run aggregate profile.
fn freeze_one(p: Profiler) -> (r: Profile)
    requires
        p.wf(),
    ensures
        r@ == collated_view(seq![run_view_of(p)]),
        r@.wf(),
{
    let ghost rv = run_view_of(p);
    let mut p = p;
    let path = drain_blocks(&mut p);
    let gadgets = drain_gadgets(&mut p);
    let writes = drain_writes(&mut p);
    let mut paths: Vec<Vec<Block>> = Vec::new();
    paths.push(path);
    let mut cpu_errors: Vec<Option<CpuError>> = Vec::new();
    cpu_errors.push(p.cpu_error);
    let mut emulation_times: Vec<u64> = Vec::new();
    emulation_times.push(p.emulation_micros);
    let mut registers: Vec<RegisterState> = Vec::new();
    let mut regs: RegisterState = Vec::new();
    let mut k: usize = 0;
    while k < p.registers.len()
        invariant
            k <= p.registers@.len(),
            p.registers@ == rv.registers,
            regs@ == rv.registers.take(k as int),
        decreases p.registers@.len() - k,
    {
        regs.push(p.registers[k]);
        k += 1;
        proof {
            assert(regs@ =~= rv.registers.take(k as int));
        }
    }
    proof {
        assert(regs@ =~= rv.registers);
    }
    registers.push(regs);
    let mut gadgets_executed: Vec<AddrSet> = Vec::new();
    gadgets_executed.push(gadgets);
    let mut write_logs: Vec<Vec<MemLogEntry>> = Vec::new();
    write_logs.push(writes);
    let r = Profile {
        paths,
        cpu_errors,
        emulation_times,
        registers,
        gadgets_executed,
        write_logs,
        executable: true,
    };
    proof {
        assert(r@.paths =~= seq![rv].map_values(|x: RunView| x.path));
        assert(r@.cpu_errors =~= seq![rv].map_values(|x: RunView| x.cpu_error));
        assert(r@.emulation_times =~= seq![rv].map_values(|x: RunView| x.emulation_micros));
        assert(r@.registers =~= seq![rv].map_values(|x: RunView| x.registers));
        assert(r@.gadgets_executed =~= seq![rv].map_values(|x: RunView| x.gadgets));
        assert(r@.write_logs =~= seq![rv].map_values(|x: RunView| x.writes));
        assert(r@ =~= collated_view(seq![rv]));
    }
    r
}

/// Removes every recorded block from the log, oldest first.
fn drain_blocks(p: &mut Profiler) -> (r: Vec<Block>)
    requires
        old(p).wf(),
    ensures
        r@ == old(p).blocks().map_values(|t: (u64, usize)| Block { entry: t.0, size: t.1 }),
        final(p).blocks().len() == 0,
        final(p).gadgets() == old(p).gadgets(),
        final(p).writes() == old(p).writes(),
        final(p).cpu_error == old(p).cpu_error,
        final(p).emulation_micros == old(p).emulation_micros,
        final(p).registers == old(p).registers,
        final(p).wf(),
        forall|i: int| 0 <= i < r@.len() ==> (#[trigger] r@[i]).valid(),
{
    let ghost orig = old(p).blocks();
    let ghost f = |t: (u64, usize)| Block { entry: t.0, size: t.1 };
    let mut v: Vec<Block> = Vec::new();
    proof {
        assert(v@ =~= orig.take(0).map_values(f));
        assert(p.blocks() =~= orig.skip(0));
    }
    loop
        invariant
            forall|t: (u64, usize)| #[trigger] f(t) == (Block { entry: t.0, size: t.1 }),
            v@.len() <= orig.len(),
            v@ == orig.take(v@.len() as int).map_values(f),
            p.blocks() == orig.skip(v@.len() as int),
            p.gadgets() == old(p).gadgets(),
            p.writes() == old(p).writes(),
            p.cpu_error == old(p).cpu_error,
            p.emulation_micros == old(p).emulation_micros,
            p.registers == old(p).registers,
            p.wf(),
            forall|k: int| 0 <= k < orig.len() ==> (#[trigger] orig[k]).0 + orig[k].1 <= u64::MAX,
        ensures
            v@ == orig.map_values(f),
            p.blocks().len() == 0,
            p.gadgets() == old(p).gadgets(),
            p.writes() == old(p).writes(),
            p.cpu_error == old(p).cpu_error,
            p.emulation_micros == old(p).emulation_micros,
            p.registers == old(p).registers,
            p.wf(),
        decreases p.blocks().len(),
    {
        let ghost n = v@.len() as int;
        match p.pop_block() {
            Some(b) => {
                v.push(b);
                proof {
                    assert(orig.skip(n)[0] == orig[n]);
                    assert(b == f(orig[n]));
                    assert(orig.take(n + 1).map_values(f) =~= orig.take(n).map_values(f).push(
                        f(orig[n]),
                    ));
                    assert(orig.skip(n).drop_first() =~= orig.skip(n + 1));
                }
            },
            None => {
                proof {
                    assert(orig.take(n) =~= orig);
                }
                break ;
            },
        }
    }
    proof {
        assert forall|i: int| 0 <= i < v@.len() implies (#[trigger] v@[i]).valid() by {
            assert(v@[i] == f(orig[i]));
        }
    }
    v
}

/// Removes every recorded gadget address from the log and collects the set
/// of distinct addresses hit.
fn drain_gadgets(p: &mut Profiler) -> (r: AddrSet)
    requires
        old(p).wf(),
    ensures
        addr_set_contents(r) == set_of(old(p).gadgets()),
        addr_set_contents(r).finite(),
        final(p).gadgets().len() == 0,
        final(p).blocks() == old(p).blocks(),
        final(p).writes() == old(p).writes(),
        final(p).cpu_error == old(p).cpu_error,
        final(p).emulation_micros == old(p).emulation_micros,
        final(p).registers == old(p).registers,
        final(p).wf(),
{
    let ghost orig = old(p).gadgets();
    let mut s = AddrSet::new();
    proof {
        assert(addr_set_contents(s) =~= set_of(orig.take(0)));
        assert(p.gadgets() =~= orig.skip(0));
    }
    let ghost mut drained: int = 0;
    loop
        invariant
            0 <= drained <= orig.len(),
            addr_set_contents(s) == set_of(orig.take(drained)),
            addr_set_contents(s).finite(),
            p.gadgets() == orig.skip(drained),
            p.blocks() == old(p).blocks(),
            p.writes() == old(p).writes(),
            p.cpu_error == old(p).cpu_error,
            p.emulation_micros == old(p).emulation_micros,
            p.registers == old(p).registers,
            p.wf(),
        ensures
            addr_set_contents(s) == set_of(orig),
            p.gadgets().len() == 0,
            p.blocks() == old(p).blocks(),
            p.writes() == old(p).writes(),
            p.cpu_error == old(p).cpu_error,
            p.emulation_micros == old(p).emulation_micros,
            p.registers == old(p).registers,
            p.wf(),
        decreases p.gadgets().len(),
    {
        let ghost d = drained;
        match p.pop_gadget() {
            Some(a) => {
                s.insert(a);
                proof {
                    drained = drained + 1;
                    assert(orig.skip(d)[0] == orig[d]);
                    assert(orig.take(d + 1).drop_last() =~= orig.take(d));
                    assert(orig.take(d + 1).last() == orig[d]);
                    assert(set_of(orig.take(d + 1)) =~= set_of(orig.take(d)).insert(orig[d]));
                    assert(orig.skip(d).drop_first() =~= orig.skip(d + 1));
                }
            },
            None => {
                proof {
                    assert(orig.take(d) =~= orig);
                }
                break ;
            },
        }
    }
    s
}

/// Removes every recorded memory write from the log, oldest first.
fn drain_writes(p: &mut Profiler) -> (r: Vec<MemLogEntry>)
    requires
        old(p).wf(),
    ensures
        r@ == old(p).writes().map_values(
            |t: (u64, u64, usize, u64)|
                MemLogEntry {
                    program_counter: t.0,
                    address: t.1,
                    num_bytes_written: t.2,
                    value: t.3,
                },
        ),
        final(p).writes().len() == 0,
        final(p).blocks() == old(p).blocks(),
        final(p).gadgets() == old(p).gadgets(),
        final(p).cpu_error == old(p).cpu_error,
        final(p).emulation_micros == old(p).emulation_micros,
        final(p).registers == old(p).registers,
        final(p).wf(),
        forall|i: int| 0 <= i < r@.len() ==> (#[trigger] r@[i]).valid(),
{
    let ghost orig = old(p).writes();
    let ghost f = |t: (u64, u64, usize, u64)|
        MemLogEntry { program_counter: t.0, address: t.1, num_bytes_written: t.2, value: t.3 };
    let mut v: Vec<MemLogEntry> = Vec::new();
    proof {
        assert(v@ =~= orig.take(0).map_values(f));
        assert(p.writes() =~= orig.skip(0));
    }
    loop
        invariant
            forall|t: (u64, u64, usize, u64)| #[trigger] f(t) == (MemLogEntry {
                program_counter: t.0,
                address: t.1,
                num_bytes_written: t.2,
                value: t.3,
            }),
            v@.len() <= orig.len(),
            v@ == orig.take(v@.len() as int).map_values(f),
            p.writes() == orig.skip(v@.len() as int),
            p.blocks() == old(p).blocks(),
            p.gadgets() == old(p).gadgets(),
            p.cpu_error == old(p).cpu_error,
            p.emulation_micros == old(p).emulation_micros,
            p.registers == old(p).registers,
            p.wf(),
            forall|k: int| 0 <= k < orig.len() ==> (#[trigger] orig[k]).1 + orig[k].2 <= u64::MAX,
        ensures
            v@ == orig.map_values(f),
            p.writes().len() == 0,
            p.blocks() == old(p).blocks(),
            p.gadgets() == old(p).gadgets(),
            p.cpu_error == old(p).cpu_error,
            p.emulation_micros == old(p).emulation_micros,
            p.registers == old(p).registers,
            p.wf(),
        decreases p.writes().len(),
    {
        let ghost n = v@.len() as int;
        match p.pop_write() {
            Some(e) => {
                v.push(e);
                proof {
                    assert(orig.skip(n)[0] == orig[n]);
                    assert(e == f(orig[n]));
                    assert(orig.take(n + 1).map_values(f) =~= orig.take(n).map_values(f).push(
                        f(orig[n]),
                    ));
                    assert(orig.skip(n).drop_first() =~= orig.skip(n + 1));
                }
            },
            None => {
                proof {
                    assert(orig.take(n) =~= orig);
                }
                break ;
            },
        }
    }
    proof {
        assert forall|i: int| 0 <= i < v@.len() implies (#[trigger] v@[i]).valid() by {
            assert(v@[i] == f(orig[i]));
        }
    }
    v
}

impl Profiler {
    /// Drains every collection of this log exactly once, in recording
    /// order, and returns the frozen one-run profile.  The log is consumed.
    pub fn freeze(self) -> (r: Profile)
        requires
            self.wf(),
        ensures
            r@ == collated_view(seq![run_view_of(self)]),
            r@.wf(),
    {
        freeze_one(self)
    }
}


/// Sum of a sequence of 64-bit counts, as a mathematical integer.
pub open spec fn sum_u64(s: Seq<u64>) -> int
    decreases s.len(),
{
    if s.len() == 0 {
        0
    } else {
        sum_u64(s.drop_last()) + s.last()
    }
}

/// All write events of the aggregate, flattened in run order.
pub open spec fn flat_writes(logs: Seq<Seq<MemLogEntry>>) -> Seq<MemLogEntry>
    decreases logs.len(),
{
    if logs.len() == 0 {
        Seq::empty()
    } else {
        flat_writes(logs.drop_last()) + logs.last()
    }
}

/// The write events among `s` whose written value equals `w`, in order.
pub open spec fn matching_writes(s: Seq<MemLogEntry>, w: u64) -> Seq<MemLogEntry>
    decreases s.len(),
{
    if s.len() == 0 {
        Seq::empty()
    } else if s.last().value == w {
        matching_writes(s.drop_last(), w).push(s.last())
    } else {
        matching_writes(s.drop_last(), w)
    }
}

/// Whether write event `e` touched address `a`.
pub open spec fn entry_covers(e: MemLogEntry, a: u64) -> bool {
    e.address <= a < e.address + e.num_bytes_written
}

/// Union of the addresses touched by the write events of `s`.
pub open spec fn addrs_of(s: Seq<MemLogEntry>) -> Set<u64>
    decreases s.len(),
{
    if s.len() == 0 {
        Set::empty()
    } else {
        addrs_of(s.drop_last()).union(Set::new(|a: u64| entry_covers(s.last(), a)))
    }
}

/// Union of all addresses ever written, over the whole aggregate.
pub open spec fn written_addresses(v: ProfileView) -> Set<u64> {
    addrs_of(flat_writes(v.write_logs))
}

/// Whether address `w` was flagged as an executed gadget in any run.
pub open spec fn executed_spec(v: ProfileView, w: u64) -> bool {
    exists|i: int|
        0 <= i < v.gadgets_executed.len() && (#[trigger] v.gadgets_executed[i]).contains(w)
}

/// The written-byte ratio at fixed-point scale, clamped into [0, 1].
pub open spec fn ratio_scaled(count: nat, total: u64) -> u64 {
    if count > total {
        crate::SCORE_SCALE
    } else {
        (((count * crate::SCORE_SCALE) as int) / (total as int)) as u64
    }
}

impl Profile {
    /// Mean emulation time over all runs, in microseconds, rounded down.
    pub fn avg_emulation_micros(&self) -> (r: u64)
        requires
            self@.emulation_times.len() > 0,
        ensures
            r == sum_u64(self@.emulation_times) / (self@.emulation_times.len() as int),
    {
        let ghost times = self@.emulation_times;
        let n = self.emulation_times.len();
        let mut acc: u128 = 0;
        let mut i: usize = 0;
        proof {
            assert(times.take(0) =~= Seq::<u64>::empty());
        }
        while i < self.emulation_times.len()
            invariant
                i <= times.len(),
                times == self@.emulation_times,
                times.len() == n,
                acc == sum_u64(times.take(i as int)),
                acc <= (i as int) * (u64::MAX as int),
            decreases times.len() - i,
        {
            proof {
                assert(times.take(i as int + 1).drop_last() =~= times.take(i as int));
                assert(acc + times[i as int] <= (i as int) * (u64::MAX as int) + (
                u64::MAX as int));
            }
            acc = acc + (self.emulation_times[i] as u128);
            i += 1;
        }
        proof {
            assert(times.take(i as int) =~= times);
            let n = times.len() as int;
            vstd::arithmetic::div_mod::lemma_div_is_ordered(
                acc as int,
                n * (u64::MAX as int),
                n,
            );
            vstd::arithmetic::div_mod::lemma_div_by_multiple(u64::MAX as int, n);
            assert((u64::MAX as int) * n == n * (u64::MAX as int))
                by (nonlinear_arith);
        }
        (acc / (self.emulation_times.len() as u128)) as u64
    }

    /// The recorded per-run basic-block paths, in run order.
    pub fn basic_block_path_iterator(&self) -> (r: &Vec<Vec<Block>>)
        ensures
            r@.map_values(|p: Vec<Block>| p@) == self@.paths,
    {
        &self.paths
    }

    /// Flattens the write logs of all runs, in run order.
    fn all_writes(&self) -> (r: Vec<MemLogEntry>)
        ensures
            r@ == flat_writes(self@.write_logs),
            self@.wf() ==> forall|k: int| 0 <= k < r@.len() ==> (#[trigger] r@[k]).valid(),
    {
        let ghost logs = self@.write_logs;
        let mut out: Vec<MemLogEntry> = Vec::new();
        let mut i: usize = 0;
        proof {
            assert(out@ =~= flat_writes(logs.take(0)));
        }
        while i < self.write_logs.len()
            invariant
                i <= logs.len(),
                logs == self@.write_logs,
                self.write_logs@.len() == logs.len(),
                out@ == flat_writes(logs.take(i as int)),
                self@.wf() ==> forall|k: int| 0 <= k < out@.len() ==> (#[trigger] out@[k]).valid(),
            decreases logs.len() - i,
        {
            let ghost row = logs[i as int];
            let mut j: usize = 0;
            proof {
                assert(out@ =~= flat_writes(logs.take(i as int)) + row.take(0));
            }
            while j < self.write_logs[i].len()
                invariant
                    i < logs.len(),
                    j <= row.len(),
                    logs == self@.write_logs,
                    self.write_logs@.len() == logs.len(),
                    self.write_logs@[i as int]@ == row,
                    out@ == flat_writes(logs.take(i as int)) + row.take(j as int),
                    self@.wf() ==> forall|k: int|
                        0 <= k < out@.len() ==> (#[trigger] out@[k]).valid(),
                decreases row.len() - j,
            {
                out.push(self.write_logs[i][j]);
                j += 1;
                proof {
                    assert(row.take(j as int) =~= row.take(j as int - 1).push(
                        row[j as int - 1],
                    ));
                    assert(out@ =~= flat_writes(logs.take(i as int)) + row.take(j as int));
                    if self@.wf() {
                        assert((self@.write_logs[i as int])[j as int - 1].valid());
                    }
                }
            }
            i += 1;
            proof {
                assert(row.take(row.len() as int) =~= row);
                assert(logs.take(i as int).drop_last() =~= logs.take(i as int - 1));
                assert(out@ =~= flat_writes(logs.take(i as int)));
            }
        }
        proof {
            assert(logs.take(i as int) =~= logs);
        }
        out
    }

    /// All write events whose written value equals `w`; empty if the word
    /// was never written.  The write logs are flattened in run order.
    pub fn was_this_written(&self, w: u64) -> (r: Vec<MemLogEntry>)
        ensures
            r@ == matching_writes(flat_writes(self@.write_logs), w),
    {
        let flat = self.all_writes();
        let ghost fs = flat@;
        let mut out: Vec<MemLogEntry> = Vec::new();
        let mut i: usize = 0;
        proof {
            assert(out@ =~= matching_writes(fs.take(0), w));
        }
        while i < flat.len()
            invariant
                i <= fs.len(),
                flat@ == fs,
                out@ == matching_writes(fs.take(i as int), w),
            decreases fs.len() - i,
        {
            proof {
                assert(fs.take(i as int + 1).drop_last() =~= fs.take(i as int));
            }
            if flat[i].value == w {
                out.push(flat[i]);
            }
            i += 1;
        }
        proof {
            assert(fs.take(i as int) =~= fs);
        }
        out
    }

    /// True exactly when `w` appears in some run's executed-gadget set.
    pub fn was_this_executed(&self, w: u64) -> (r: bool)
        ensures
            r == executed_spec(self@, w),
    {
        let mut i: usize = 0;
        while i < self.gadgets_executed.len()
            invariant
                i <= self.gadgets_executed@.len(),
                forall|k: int|
                    0 <= k < i ==> !(#[trigger] self@.gadgets_executed[k]).contains(w),
            decreases self.gadgets_executed@.len() - i,
        {
            let hit = self.gadgets_executed[i].contains(w);
            if hit {
                proof {
                    assert(self@.gadgets_executed[i as int].contains(w));
                }
                return true;
            }
            i += 1;
        }
        false
    }

    /// The set of all addresses any run ever wrote to.
    pub fn addresses_written_to(&self) -> (r: AddrSet)
        requires
            self@.wf(),
        ensures
            addr_set_contents(r) == written_addresses(self@),
    {
        let flat = self.all_writes();
        let ghost fs = flat@;
        let mut s = AddrSet::new();
        let mut i: usize = 0;
        proof {
            assert(addr_set_contents(s) =~= addrs_of(fs.take(0)));
        }
        while i < flat.len()
            invariant
                i <= fs.len(),
                flat@ == fs,
                forall|k: int| 0 <= k < fs.len() ==> (#[trigger] fs[k]).valid(),
                addr_set_contents(s) == addrs_of(fs.take(i as int)),
            decreases fs.len() - i,
        {
            let e = flat[i];
            let ghost before = addr_set_contents(s);
            let mut k: usize = 0;
            proof {
                assert(before.union(Set::new(|a: u64| e.address <= a < e.address + 0)) =~= before);
            }
            while k < e.num_bytes_written
                invariant
                    k <= e.num_bytes_written,
                    e.valid(),
                    addr_set_contents(s) == before.union(
                        Set::new(|a: u64| e.address <= a < e.address + k),
                    ),
                decreases e.num_bytes_written - k,
            {
                s.insert(e.address + (k as u64));
                k += 1;
                proof {
                    assert(Set::new(|a: u64| e.address <= a < e.address + k) =~= Set::new(
                        |a: u64| e.address <= a < e.address + (k - 1),
                    ).insert((e.address + (k - 1)) as u64));
                    assert(addr_set_contents(s) =~= before.union(
                        Set::new(|a: u64| e.address <= a < e.address + k),
                    ));
                }
            }
            i += 1;
            proof {
                assert(fs.take(i as int).drop_last() =~= fs.take(i as int - 1));
                assert(fs.take(i as int).last() == e);
                assert(Set::new(|a: u64| e.address <= a < e.address + e.num_bytes_written)
                    =~= Set::new(|a: u64| entry_covers(e, a)));
                assert(addr_set_contents(s) =~= addrs_of(fs.take(i as int)));
            }
        }
        proof {
            assert(fs.take(i as int) =~= fs);
        }
        s
    }

    /// Ratio of distinct written addresses to the externally supplied
    /// total writable-byte count, at fixed-point scale; always in [0, 1],
    /// and exactly `written / total` whenever the written set fits the
    /// supplied total.
    pub fn mem_write_ratio(&self, writeable_size: u64) -> (r: u64)
        requires
            self@.wf(),
            writeable_size > 0,
        ensures
            r == ratio_scaled(written_addresses(self@).len(), writeable_size),
            r <= crate::SCORE_SCALE,
    {
        let s = self.addresses_written_to();
        let w = s.len();
        scaled_ratio(w as u64, writeable_size)
    }
}

/// The written-byte ratio law, exactly: whenever the written count fits
/// the supplied writable total, the fixed-point ratio equals the scaled
/// quotient count / total, and it never leaves [0, 1] on the scale.
pub proof fn lemma_ratio_exact_when_bounded(count: nat, total: u64)
    requires
        total > 0,
        count <= total,
    ensures
        ratio_scaled(count, total) == ((count as int) * (crate::SCORE_SCALE as int)) / (
        total as int),
        ratio_scaled(count, total) <= crate::SCORE_SCALE,
{
    let ci = count as int;
    let sc = crate::SCORE_SCALE as int;
    let t = total as int;
    vstd::arithmetic::mul::lemma_mul_inequality(ci, t, sc);
    vstd::arithmetic::div_mod::lemma_div_is_ordered(ci * sc, t * sc, t);
    vstd::arithmetic::div_mod::lemma_div_by_multiple(sc, t);
    assert(t * sc == sc * t) by (nonlinear_arith);
    vstd::arithmetic::mul::lemma_mul_nonnegative(ci, sc);
    vstd::arithmetic::div_mod::lemma_div_is_ordered(0, ci * sc, t);
}

/// `count / total` at fixed-point scale, clamped into [0, 1].
pub fn scaled_ratio(count: u64, total: u64) -> (r: u64)
    requires
        total > 0,
    ensures
        r == ratio_scaled(count as nat, total),
        r <= crate::SCORE_SCALE,
{
    if count > total {
        crate::SCORE_SCALE
    } else {
        proof {
            vstd::arithmetic::mul::lemma_mul_upper_bound(
                count as int,
                u64::MAX as int,
                crate::SCORE_SCALE as int,
                crate::SCORE_SCALE as int,
            );
        }
        let q = ((count as u128) * (crate::SCORE_SCALE as u128)) / (total as u128);
        proof {
            let wi = count as int;
            let sc = crate::SCORE_SCALE as int;
            let t = total as int;
            vstd::arithmetic::mul::lemma_mul_inequality(wi, t, sc);
            vstd::arithmetic::div_mod::lemma_div_is_ordered(wi * sc, t * sc, t);
            vstd::arithmetic::div_mod::lemma_div_by_multiple(sc, t);
            assert(t * sc == sc * t) by (nonlinear_arith);
        }
        q as u64
    }
}

/// Something that can carry a frozen execution profile.
pub trait HasProfile {
    fn profile(&self) -> Option<&Profile>;

    fn add_profile(&mut self, profile: Profile);
}

} // verus!
