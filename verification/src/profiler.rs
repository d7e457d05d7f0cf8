//! Per-run execution log.
//!
//! A `Profiler` collects the telemetry of one candidate's run: the basic
//! blocks entered, the gadget addresses hit, the memory writes performed,
//! the final register values and an optional captured CPU fault.  The three
//! event streams are kept in lock-free queues from crossbeam so that an
//! emulation callback can append to a shared log without a full-structure
//! lock; here the queues are specified through their drained contents.

use vstd::prelude::*;

use crossbeam::queue::SegQueue;

verus! {

/// A contiguous run of executed instructions: entry address and byte count.
#[derive(Copy, Clone, PartialEq, Eq, Structural, Hash, Debug)]
pub struct Block {
    pub entry: u64,
    pub size: usize,
}

impl Block {
    /// The address range of the block stays inside the 64-bit address space.
    pub open spec fn valid(self) -> bool {
        self.entry + self.size <= u64::MAX
    }
}

/// One memory write observed during a run.
#[derive(Copy, Clone, PartialEq, Eq, Structural, Hash, Debug)]
pub struct MemLogEntry {
    pub program_counter: u64,
    pub address: u64,
    pub num_bytes_written: usize,
    pub value: u64,
}

impl MemLogEntry {
    /// The written range stays inside the 64-bit address space.
    pub open spec fn valid(self) -> bool {
        self.address + self.num_bytes_written <= u64::MAX
    }
}

/// A CPU fault captured during emulation; per-run and recoverable.
#[derive(Copy, Clone, PartialEq, Eq, Structural, Debug)]
pub enum CpuError {
    ReadUnmapped,
    WriteUnmapped,
    FetchUnmapped,
    ReadProt,
    WriteProt,
    FetchProt,
    InsnInvalid,
    Exception,
    Other,
}

#[verifier::external_type_specification]
#[verifier::external_body]
#[verifier::reject_recursive_types(T)]
pub struct ExSegQueue<T>(SegQueue<T>);

/// What a block queue holds, head first.
pub uninterp spec fn block_queue_contents(q: SegQueue<(u64, usize)>) -> Seq<(u64, usize)>;

/// What a gadget-address queue holds, head first.
pub uninterp spec fn gadget_queue_contents(q: SegQueue<u64>) -> Seq<u64>;

/// What a write-event queue holds, head first; an element is
/// (program counter, address, byte count, value).
pub uninterp spec fn write_queue_contents(q: SegQueue<(u64, u64, usize, u64)>) -> Seq<
    (u64, u64, usize, u64),
>;

/// Relies on crossbeam's SegQueue::new: creates an empty queue.
#[verifier::external_body]
fn block_queue_new() -> (q: SegQueue<(u64, usize)>)
    ensures
        block_queue_contents(q) == Seq::<(u64, usize)>::empty(),
{
    SegQueue::new()
}

/// Relies on crossbeam's SegQueue::push: appends one element at the tail.
#[verifier::external_body]
fn block_queue_push(q: &mut SegQueue<(u64, usize)>, x: (u64, usize))
    ensures
        block_queue_contents(*final(q)) == block_queue_contents(*old(q)).push(x),
{
    q.push(x)
}

/// Relies on crossbeam's SegQueue::pop: removes and returns the head
/// element; the queue is first in, first out.
#[verifier::external_body]
fn block_queue_pop(q: &mut SegQueue<(u64, usize)>) -> (r: Option<(u64, usize)>)
    ensures
        block_queue_contents(*old(q)).len() == 0 ==> r is None && block_queue_contents(*final(q))
            == block_queue_contents(*old(q)),
        block_queue_contents(*old(q)).len() > 0 ==> r == Some(block_queue_contents(*old(q))[0])
            && block_queue_contents(*final(q)) == block_queue_contents(*old(q)).drop_first(),
{
    q.pop()
}

/// Relies on crossbeam's SegQueue::new: creates an empty queue.
#[verifier::external_body]
fn gadget_queue_new() -> (q: SegQueue<u64>)
    ensures
        gadget_queue_contents(q) == Seq::<u64>::empty(),
{
    SegQueue::new()
}

/// Relies on crossbeam's SegQueue::push: appends one element at the tail.
#[verifier::external_body]
fn gadget_queue_push(q: &mut SegQueue<u64>, x: u64)
    ensures
        gadget_queue_contents(*final(q)) == gadget_queue_contents(*old(q)).push(x),
{
    q.push(x)
}

/// Relies on crossbeam's SegQueue::pop: removes and returns the head
/// element; the queue is first in, first out.
#[verifier::external_body]
fn gadget_queue_pop(q: &mut SegQueue<u64>) -> (r: Option<u64>)
    ensures
        gadget_queue_contents(*old(q)).len() == 0 ==> r is None && gadget_queue_contents(*final(q))
            == gadget_queue_contents(*old(q)),
        gadget_queue_contents(*old(q)).len() > 0 ==> r == Some(gadget_queue_contents(*old(q))[0])
            && gadget_queue_contents(*final(q)) == gadget_queue_contents(*old(q)).drop_first(),
{
    q.pop()
}

/// Relies on crossbeam's SegQueue::new: creates an empty queue.
#[verifier::external_body]
fn write_queue_new() -> (q: SegQueue<(u64, u64, usize, u64)>)
    ensures
        write_queue_contents(q) == Seq::<(u64, u64, usize, u64)>::empty(),
{
    SegQueue::new()
}

/// Relies on crossbeam's SegQueue::push: appends one element at the tail.
#[verifier::external_body]
fn write_queue_push(q: &mut SegQueue<(u64, u64, usize, u64)>, x: (u64, u64, usize, u64))
    ensures
        write_queue_contents(*final(q)) == write_queue_contents(*old(q)).push(x),
{
    q.push(x)
}

/// Relies on crossbeam's SegQueue::pop: removes and returns the head
/// element; the queue is first in, first out.
#[verifier::external_body]
fn write_queue_pop(q: &mut SegQueue<(u64, u64, usize, u64)>) -> (r: Option<(u64, u64, usize, u64)>)
    ensures
        write_queue_contents(*old(q)).len() == 0 ==> r is None && write_queue_contents(*final(q))
            == write_queue_contents(*old(q)),
        write_queue_contents(*old(q)).len() > 0 ==> r == Some(write_queue_contents(*old(q))[0])
            && write_queue_contents(*final(q)) == write_queue_contents(*old(q)).drop_first(),
{
    q.pop()
}

/// The mutable log of one run in progress.
pub struct Profiler {
    pub block_log: SegQueue<(u64, usize)>,
    pub gadget_log: SegQueue<u64>,
    pub write_log: SegQueue<(u64, u64, usize, u64)>,
    pub cpu_error: Option<CpuError>,
    pub emulation_micros: u64,
    pub registers: Vec<(u64, u64)>,
    pub registers_to_read: Vec<u64>,
    pub input: Vec<(u64, u64)>,
}

impl Profiler {
    /// The blocks recorded so far, in recording order.
    pub open spec fn blocks(&self) -> Seq<(u64, usize)> {
        block_queue_contents(self.block_log)
    }

    /// The gadget addresses recorded so far, in recording order.
    pub open spec fn gadgets(&self) -> Seq<u64> {
        gadget_queue_contents(self.gadget_log)
    }

    /// The memory writes recorded so far, in recording order.
    pub open spec fn writes(&self) -> Seq<(u64, u64, usize, u64)> {
        write_queue_contents(self.write_log)
    }

    /// Every recorded block and write stays inside the address space.
    pub open spec fn wf(&self) -> bool {
        &&& forall|i: int|
            0 <= i < self.blocks().len() ==> (#[trigger] self.blocks()[i]).0 + self.blocks()[i].1
                <= u64::MAX
        &&& forall|i: int|
            0 <= i < self.writes().len() ==> (#[trigger] self.writes()[i]).1 + self.writes()[i].2
                <= u64::MAX
    }

    pub fn new(output_registers: Vec<u64>, input: Vec<(u64, u64)>) -> (r: Profiler)
        ensures
            r.blocks() == Seq::<(u64, usize)>::empty(),
            r.gadgets() == Seq::<u64>::empty(),
            r.writes() == Seq::<(u64, u64, usize, u64)>::empty(),
            r.cpu_error is None,
            r.emulation_micros == 0,
            r.registers@ == Seq::<(u64, u64)>::empty(),
            r.registers_to_read == output_registers,
            r.input == input,
            r.wf(),
    {
        Profiler {
            block_log: block_queue_new(),
            gadget_log: gadget_queue_new(),
            write_log: write_queue_new(),
            cpu_error: None,
            emulation_micros: 0,
            registers: Vec::new(),
            registers_to_read: output_registers,
            input,
        }
    }

    /// Appends one executed basic block to the log.
    pub fn record_block(&mut self, b: Block)
        requires
            b.valid(),
        ensures
            final(self).blocks() == old(self).blocks().push((b.entry, b.size)),
            final(self).gadgets() == old(self).gadgets(),
            final(self).writes() == old(self).writes(),
            final(self).cpu_error == old(self).cpu_error,
            final(self).emulation_micros == old(self).emulation_micros,
            final(self).registers == old(self).registers,
            final(self).registers_to_read == old(self).registers_to_read,
            final(self).input == old(self).input,
            old(self).wf() ==> final(self).wf(),
    {
        block_queue_push(&mut self.block_log, (b.entry, b.size));
    }

    /// Appends one executed gadget address to the log.
    pub fn record_gadget(&mut self, addr: u64)
        ensures
            final(self).gadgets() == old(self).gadgets().push(addr),
            final(self).blocks() == old(self).blocks(),
            final(self).writes() == old(self).writes(),
            final(self).cpu_error == old(self).cpu_error,
            final(self).emulation_micros == old(self).emulation_micros,
            final(self).registers == old(self).registers,
            final(self).registers_to_read == old(self).registers_to_read,
            final(self).input == old(self).input,
            old(self).wf() ==> final(self).wf(),
    {
        gadget_queue_push(&mut self.gadget_log, addr);
    }

    /// Appends one observed memory write to the log.
    pub fn record_write(&mut self, e: MemLogEntry)
        requires
            e.valid(),
        ensures
            final(self).writes() == old(self).writes().push(
                (e.program_counter, e.address, e.num_bytes_written, e.value),
            ),
            final(self).blocks() == old(self).blocks(),
            final(self).gadgets() == old(self).gadgets(),
            final(self).cpu_error == old(self).cpu_error,
            final(self).emulation_micros == old(self).emulation_micros,
            final(self).registers == old(self).registers,
            final(self).registers_to_read == old(self).registers_to_read,
            final(self).input == old(self).input,
            old(self).wf() ==> final(self).wf(),
    {
        write_queue_push(
            &mut self.write_log,
            (e.program_counter, e.address, e.num_bytes_written, e.value),
        );
    }

    /// Stores the final value of each register the profiler was asked to
    /// read, paired with its register id, in the configured order.
    pub fn read_registers(&mut self, values: &Vec<u64>)
        requires
            values@.len() == old(self).registers_to_read@.len(),
        ensures
            final(self).registers@ == Seq::new(
                values@.len(),
                |i: int| (old(self).registers_to_read@[i], values@[i]),
            ),
            final(self).blocks() == old(self).blocks(),
            final(self).gadgets() == old(self).gadgets(),
            final(self).writes() == old(self).writes(),
            final(self).cpu_error == old(self).cpu_error,
            final(self).emulation_micros == old(self).emulation_micros,
            final(self).registers_to_read == old(self).registers_to_read,
            final(self).input == old(self).input,
            old(self).wf() ==> final(self).wf(),
    {
        let ghost to_read = self.registers_to_read@;
        let mut regs: Vec<(u64, u64)> = Vec::new();
        let mut i: usize = 0;
        while i < values.len()
            invariant
                i <= values@.len(),
                values@.len() == to_read.len(),
                *self == *old(self),
                to_read == self.registers_to_read@,
                regs@ == Seq::new(i as nat, |j: int| (to_read[j], values@[j])),
            decreases values@.len() - i,
        {
            regs.push((self.registers_to_read[i], values[i]));
            i += 1;
            proof {
                assert(regs@ =~= Seq::new(i as nat, |j: int| (to_read[j], values@[j])));
            }
        }
        self.registers = regs;
        proof {
            assert(self.blocks() == old(self).blocks());
            assert(self.writes() == old(self).writes());
            if old(self).wf() {
                assert forall|k: int| 0 <= k < self.blocks().len() implies (
                #[trigger] self.blocks()[k]).0 + self.blocks()[k].1 <= u64::MAX by {
                    assert(old(self).blocks()[k].0 + old(self).blocks()[k].1 <= u64::MAX);
                }
                assert forall|k: int| 0 <= k < self.writes().len() implies (
                #[trigger] self.writes()[k]).1 + self.writes()[k].2 <= u64::MAX by {
                    assert(old(self).writes()[k].1 + old(self).writes()[k].2 <= u64::MAX);
                }
            }
        }
    }

    /// The recorded final value of register `reg`, if it was read.
    pub fn register(&self, reg: u64) -> (r: Option<u64>)
        ensures
            r == crate::assoc_lookup(self.registers@, reg),
    {
        lookup_register(&self.registers, reg)
    }

    /// Captures a per-run CPU fault.
    pub fn set_error(&mut self, error: CpuError)
        ensures
            final(self).cpu_error == Some(error),
            final(self).blocks() == old(self).blocks(),
            final(self).gadgets() == old(self).gadgets(),
            final(self).writes() == old(self).writes(),
            final(self).emulation_micros == old(self).emulation_micros,
            final(self).registers == old(self).registers,
            final(self).registers_to_read == old(self).registers_to_read,
            final(self).input == old(self).input,
            old(self).wf() ==> final(self).wf(),
    {
        self.cpu_error = Some(error);
    }

    /// Records how long the emulation took, in microseconds.
    pub fn set_emulation_micros(&mut self, micros: u64)
        ensures
            final(self).emulation_micros == micros,
            final(self).blocks() == old(self).blocks(),
            final(self).gadgets() == old(self).gadgets(),
            final(self).writes() == old(self).writes(),
            final(self).cpu_error == old(self).cpu_error,
            final(self).registers == old(self).registers,
            final(self).registers_to_read == old(self).registers_to_read,
            final(self).input == old(self).input,
            old(self).wf() ==> final(self).wf(),
    {
        self.emulation_micros = micros;
    }

    /// Removes and returns the oldest recorded block, if any.
    pub fn pop_block(&mut self) -> (r: Option<Block>)
        ensures
            old(self).blocks().len() == 0 ==> r is None && final(self).blocks() == old(self).blocks(),
            old(self).blocks().len() > 0 ==> r == Some(
                Block { entry: old(self).blocks()[0].0, size: old(self).blocks()[0].1 },
            ) && final(self).blocks() == old(self).blocks().drop_first(),
            final(self).gadgets() == old(self).gadgets(),
            final(self).writes() == old(self).writes(),
            final(self).cpu_error == old(self).cpu_error,
            final(self).emulation_micros == old(self).emulation_micros,
            final(self).registers == old(self).registers,
            final(self).registers_to_read == old(self).registers_to_read,
            final(self).input == old(self).input,
            old(self).wf() ==> final(self).wf(),
    {
        let r = block_queue_pop(&mut self.block_log);
        proof {
            if old(self).wf() {
                assert forall|k: int| 0 <= k < self.blocks().len() implies (
                #[trigger] self.blocks()[k]).0 + self.blocks()[k].1 <= u64::MAX by {
                    if old(self).blocks().len() > 0 {
                        assert(self.blocks()[k] == old(self).blocks()[k + 1]);
                    } else {
                        assert(self.blocks()[k] == old(self).blocks()[k]);
                    }
                }
                assert forall|k: int| 0 <= k < self.writes().len() implies (
                #[trigger] self.writes()[k]).1 + self.writes()[k].2 <= u64::MAX by {
                    assert(self.writes()[k] == old(self).writes()[k]);
                }
            }
        }
        match r {
            Some((entry, size)) => Some(Block { entry, size }),
            None => None,
        }
    }

    /// Removes and returns the oldest recorded gadget address, if any.
    pub fn pop_gadget(&mut self) -> (r: Option<u64>)
        ensures
            old(self).gadgets().len() == 0 ==> r is None && final(self).gadgets() == old(self).gadgets(),
            old(self).gadgets().len() > 0 ==> r == Some(old(self).gadgets()[0]) && final(self).gadgets() == old(self).gadgets().drop_first(),
            final(self).blocks() == old(self).blocks(),
            final(self).writes() == old(self).writes(),
            final(self).cpu_error == old(self).cpu_error,
            final(self).emulation_micros == old(self).emulation_micros,
            final(self).registers == old(self).registers,
            final(self).registers_to_read == old(self).registers_to_read,
            final(self).input == old(self).input,
            old(self).wf() ==> final(self).wf(),
    {
        gadget_queue_pop(&mut self.gadget_log)
    }

    /// Removes and returns the oldest recorded memory write, if any.
    pub fn pop_write(&mut self) -> (r: Option<MemLogEntry>)
        ensures
            old(self).writes().len() == 0 ==> r is None && final(self).writes() == old(self).writes(),
            old(self).writes().len() > 0 ==> r == Some(
                MemLogEntry {
                    program_counter: old(self).writes()[0].0,
                    address: old(self).writes()[0].1,
                    num_bytes_written: old(self).writes()[0].2,
                    value: old(self).writes()[0].3,
                },
            ) && final(self).writes() == old(self).writes().drop_first(),
            final(self).blocks() == old(self).blocks(),
            final(self).gadgets() == old(self).gadgets(),
            final(self).cpu_error == old(self).cpu_error,
            final(self).emulation_micros == old(self).emulation_micros,
            final(self).registers == old(self).registers,
            final(self).registers_to_read == old(self).registers_to_read,
            final(self).input == old(self).input,
            old(self).wf() ==> final(self).wf(),
    {
        let r = write_queue_pop(&mut self.write_log);
        proof {
            if old(self).wf() {
                assert forall|k: int| 0 <= k < self.writes().len() implies (
                #[trigger] self.writes()[k]).1 + self.writes()[k].2 <= u64::MAX by {
                    if old(self).writes().len() > 0 {
                        assert(self.writes()[k] == old(self).writes()[k + 1]);
                    } else {
                        assert(self.writes()[k] == old(self).writes()[k]);
                    }
                }
                assert forall|k: int| 0 <= k < self.blocks().len() implies (
                #[trigger] self.blocks()[k]).0 + self.blocks()[k].1 <= u64::MAX by {
                    assert(self.blocks()[k] == old(self).blocks()[k]);
                }
            }
        }
        match r {
            Some((program_counter, address, num_bytes_written, value)) => Some(
                MemLogEntry { program_counter, address, num_bytes_written, value },
            ),
            None => None,
        }
    }
}

impl Default for Profiler {
    fn default() -> (r: Profiler)
        ensures
            r.blocks() == Seq::<(u64, usize)>::empty(),
            r.gadgets() == Seq::<u64>::empty(),
            r.writes() == Seq::<(u64, u64, usize, u64)>::empty(),
            r.cpu_error is None,
            r.emulation_micros == 0,
            r.registers@ == Seq::<(u64, u64)>::empty(),
            r.registers_to_read@ == Seq::<u64>::empty(),
            r.input@ == Seq::<(u64, u64)>::empty(),
            r.wf(),
    {
        Profiler::new(Vec::new(), Vec::new())
    }
}

/// First value paired with `reg` in `regs`, if any.
pub fn lookup_register(regs: &Vec<(u64, u64)>, reg: u64) -> (r: Option<u64>)
    ensures
        r == crate::assoc_lookup(regs@, reg),
{
    let mut i: usize = 0;
    proof {
        assert(regs@.skip(0) =~= regs@);
    }
    while i < regs.len()
        invariant
            i <= regs@.len(),
            crate::assoc_lookup(regs@, reg) == crate::assoc_lookup(regs@.skip(i as int), reg),
        decreases regs@.len() - i,
    {
        let (k, v) = regs[i];
        if k == reg {
            proof {
                assert(regs@.skip(i as int)[0] == (k, v));
            }
            return Some(v);
        }
        proof {
            assert(regs@.skip(i as int).drop_first() =~= regs@.skip(i + 1));
        }
        i += 1;
    }
    proof {
        assert(regs@.skip(i as int).len() == 0);
    }
    None
}

} // verus!
