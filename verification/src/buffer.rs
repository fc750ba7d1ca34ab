use crate::gpu::{
    accepted, all_accepted, apply, buffer_ops, lemma_run_push, run, BufferCommand, BufferOp,
    BufferUsage, Memory,
};
use crate::index::IndexDriver;
use vstd::prelude::*;

verus! {

/// How many times the needed capacity a reallocation provides.
pub const GROWTH_FACTOR: usize = 2;

/// The bookkeeping of a growable buffer of fixed-size records, as mathematical values.
pub struct BufferState {
    /// Handle of the live allocation.
    pub buffer: usize,
    pub usage: BufferUsage,
    /// Bytes per record.
    pub record_size: nat,
    /// Records that the live allocation can hold.
    pub capacity: nat,
    /// Records written so far.
    pub len: nat,
}

impl BufferState {
    pub open spec fn wf(self) -> bool {
        self.record_size > 0 && self.len <= self.capacity
    }

    /// Whether `count` more records fit without a reallocation.
    pub open spec fn fits(self, count: nat) -> bool {
        self.len + count <= self.capacity
    }

    /// The capacity that a reallocation for `count` more records provides.
    pub open spec fn grown_capacity(self, count: nat) -> nat {
        (if self.len + count >= self.capacity {
            self.len + count
        } else {
            self.capacity
        }) * (GROWTH_FACTOR as nat)
    }

    /// The bookkeeping after `count` records were appended; `fresh` is the handle of the new
    /// allocation where one is needed.
    pub open spec fn appended(self, count: nat, fresh: usize) -> BufferState {
        if self.fits(count) {
            BufferState { len: self.len + count, ..self }
        } else {
            BufferState {
                buffer: fresh,
                capacity: self.grown_capacity(count),
                len: self.len + count,
                ..self
            }
        }
    }

    /// The device operations that append `data`.
    pub open spec fn append_ops(self, data: Seq<u8>, fresh: usize) -> Seq<BufferOp> {
        let count = data.len() / self.record_size;
        if self.fits(count) {
            seq![
                BufferOp::Write {
                    buffer: self.buffer,
                    offset: (self.len * self.record_size) as u64,
                    data,
                },
            ]
        } else {
            seq![
                BufferOp::Create {
                    buffer: fresh,
                    size: (self.grown_capacity(count) * self.record_size) as u64,
                    usage: self.usage,
                },
                BufferOp::Copy {
                    source: self.buffer,
                    destination: fresh,
                    size: (self.len * self.record_size) as u64,
                },
                BufferOp::Write {
                    buffer: fresh,
                    offset: (self.len * self.record_size) as u64,
                    data,
                },
            ]
        }
    }

    /// The device operation that replaces the record in slot `index`.
    pub open spec fn overwrite_op(self, index: nat, record: Seq<u8>) -> BufferOp {
        BufferOp::Write {
            buffer: self.buffer,
            offset: (index * self.record_size) as u64,
            data: record,
        }
    }

    /// Whether `memory` holds the live allocation at its full size.
    pub open spec fn backed_by(self, memory: Memory) -> bool {
        &&& memory.dom().contains(self.buffer)
        &&& memory[self.buffer].len() == self.capacity * self.record_size
        &&& self.capacity * self.record_size <= u64::MAX
    }

    /// The bytes of the records written so far, as `memory` holds them.
    pub open spec fn contents(self, memory: Memory) -> Seq<u8> {
        memory[self.buffer].subrange(0, (self.len * self.record_size) as int)
    }

    /// The bytes of the record in slot `index`, as `memory` holds them.
    pub open spec fn record(self, memory: Memory, index: nat) -> Seq<u8> {
        memory[self.buffer].subrange(
            (index * self.record_size) as int,
            ((index + 1) * self.record_size) as int,
        )
    }
}

/// A growable device buffer of fixed-size records.
///
/// The buffer itself lives on the device; this is its bookkeeping. Each operation returns the
/// device commands that carry it out.
#[derive(Clone, Copy, Debug)]
pub struct DynamicBuffer {
    buffer: usize,
    usage: BufferUsage,
    record_size: usize,
    capacity: usize,
    len: usize,
}

impl View for DynamicBuffer {
    type V = BufferState;

    closed spec fn view(&self) -> BufferState {
        BufferState {
            buffer: self.buffer,
            usage: self.usage,
            record_size: self.record_size as nat,
            capacity: self.capacity as nat,
            len: self.len as nat,
        }
    }
}

proof fn lemma_mul_le(a: nat, b: nat, c: nat)
    requires
        a <= b,
    ensures
        a * c <= b * c,
{
    assert(a * c <= b * c) by (nonlinear_arith)
        requires
            a <= b,
    ;
}

proof fn lemma_div_mul(n: nat, d: nat)
    requires
        d > 0,
        n % d == 0,
    ensures
        (n / d) * d == n,
{
    assert((n / d) * d == n) by (nonlinear_arith)
        requires
            d > 0,
            n % d == 0,
    ;
}

proof fn lemma_run_one(memory: Memory, a: BufferOp)
    ensures
        run(memory, seq![a]) == apply(memory, a),
        all_accepted(memory, seq![a]) == accepted(memory, a),
{
    let none = Seq::<BufferOp>::empty();
    assert(run(memory, none) == memory);
    assert(all_accepted(memory, none));
    lemma_run_push(memory, none, a);
    assert(none.push(a) =~= seq![a]);
}

proof fn lemma_run_three(memory: Memory, a: BufferOp, b: BufferOp, c: BufferOp)
    ensures
        run(memory, seq![a, b, c]) == apply(apply(apply(memory, a), b), c),
        all_accepted(memory, seq![a, b, c]) == (accepted(memory, a) && accepted(
            apply(memory, a),
            b,
        ) && accepted(apply(apply(memory, a), b), c)),
{
    lemma_run_one(memory, a);
    lemma_run_push(memory, seq![a], b);
    assert(seq![a].push(b) =~= seq![a, b]);
    lemma_run_push(memory, seq![a, b], c);
    assert(seq![a, b].push(c) =~= seq![a, b, c]);
}

/// Appending keeps the length within the capacity, and reallocates only where it must and
/// then to a strictly larger buffer: where the records fit, allocation and capacity stay;
/// where they do not, the new capacity is `GROWTH_FACTOR` times what is needed.
pub proof fn lemma_appended_wf(state: BufferState, count: nat, fresh: usize)
    requires
        state.wf(),
    ensures
        state.appended(count, fresh).wf(),
        state.appended(count, fresh).record_size == state.record_size,
        state.appended(count, fresh).len == state.len + count,
        state.fits(count) ==> state.appended(count, fresh).capacity == state.capacity
            && state.appended(count, fresh).buffer == state.buffer,
        !state.fits(count) ==> state.appended(count, fresh).capacity == GROWTH_FACTOR * (state.len
            + count) && state.appended(count, fresh).capacity > state.capacity,
{
}

/// The records of a new buffer: none. Once the device has carried out the command of
/// `with_capacity`, the allocation backs the buffer and every other buffer is as before.
pub proof fn lemma_new_buffer_is_empty(state: BufferState, memory: Memory)
    requires
        state.len == 0,
        state.capacity * state.record_size <= u64::MAX,
        !memory.dom().contains(state.buffer),
    ensures
        ({
            let create = BufferOp::Create {
                buffer: state.buffer,
                size: (state.capacity * state.record_size) as u64,
                usage: state.usage,
            };
            &&& accepted(memory, create)
            &&& state.backed_by(apply(memory, create))
            &&& state.contents(apply(memory, create)) == Seq::<u8>::empty()
            &&& forall|other: usize|
                memory.dom().contains(other) ==> apply(memory, create).dom().contains(other)
                    && #[trigger] apply(memory, create)[other] == memory[other]
        }),
{
    let create = BufferOp::Create {
        buffer: state.buffer,
        size: (state.capacity * state.record_size) as u64,
        usage: state.usage,
    };
    assert(state.contents(apply(memory, create)) =~= Seq::<u8>::empty());
}

/// Appending loses and reorders nothing: once the device has carried out the commands of
/// `append`, the buffer's records are those it held before, followed by the appended ones;
/// the length has grown by their number; and every other buffer is as before.
pub proof fn lemma_append_extends_contents(
    state: BufferState,
    data: Seq<u8>,
    fresh: usize,
    memory: Memory,
)
    requires
        state.wf(),
        state.backed_by(memory),
        data.len() % state.record_size == 0,
        !state.fits(data.len() / state.record_size) ==> {
            &&& !memory.dom().contains(fresh)
            &&& state.grown_capacity(data.len() / state.record_size) * state.record_size
                <= u64::MAX
        },
    ensures
        ({
            let count = data.len() / state.record_size;
            let after = state.appended(count, fresh);
            let ops = state.append_ops(data, fresh);
            &&& all_accepted(memory, ops)
            &&& after.wf()
            &&& after.len == state.len + count
            &&& after.backed_by(run(memory, ops))
            &&& after.contents(run(memory, ops)) == state.contents(memory) + data
            &&& forall|other: usize|
                memory.dom().contains(other) && other != after.buffer ==> run(
                    memory,
                    ops,
                ).dom().contains(other) && #[trigger] run(memory, ops)[other] == memory[other]
        }),
{
    let count = data.len() / state.record_size;
    let size = state.record_size;
    let after = state.appended(count, fresh);
    let ops = state.append_ops(data, fresh);
    let start = state.len * size;
    lemma_div_mul(data.len(), size);
    lemma_mul_le(state.len, state.capacity, size);
    assert((state.len + count) * size == state.len * size + count * size) by (nonlinear_arith);
    if state.fits(count) {
        lemma_mul_le(state.len + count, state.capacity, size);
        let write = BufferOp::Write { buffer: state.buffer, offset: start as u64, data };
        lemma_run_one(memory, write);
        assert(after.contents(run(memory, ops)) =~= state.contents(memory) + data);
    } else {
        let grown = state.grown_capacity(count);
        assert(grown == (state.len + count) * 2);
        assert((state.len + count) * size <= grown * size) by (nonlinear_arith)
            requires
                grown == (state.len + count) * 2,
        ;
        let create = BufferOp::Create {
            buffer: fresh,
            size: (grown * size) as u64,
            usage: state.usage,
        };
        let copy = BufferOp::Copy { source: state.buffer, destination: fresh, size: start as u64 };
        let write = BufferOp::Write { buffer: fresh, offset: start as u64, data };
        lemma_run_three(memory, create, copy, write);
        let m1 = apply(memory, create);
        assert(accepted(memory, create));
        assert(m1[fresh].len() == grown * size);
        assert(accepted(m1, copy));
        let m2 = apply(m1, copy);
        assert(m2[fresh].len() == grown * size);
        assert(accepted(m2, write));
        let m3 = apply(m2, write);
        assert(run(memory, ops) == m3);
        assert(after.contents(m3) =~= state.contents(memory) + data);
    }
}

/// Appending allocates at most the one buffer under the fresh handle: a handle that the
/// device holds after the commands of `append` is one that it held before, or `fresh`.
pub proof fn lemma_append_adds_one(
    state: BufferState,
    data: Seq<u8>,
    fresh: usize,
    memory: Memory,
    handle: usize,
)
    requires
        run(memory, state.append_ops(data, fresh)).dom().contains(handle),
    ensures
        memory.dom().contains(handle) || handle == fresh,
{
    let count = data.len() / state.record_size;
    let start = state.len * state.record_size;
    if state.fits(count) {
        lemma_run_one(memory, BufferOp::Write { buffer: state.buffer, offset: start as u64, data });
    } else {
        lemma_run_three(
            memory,
            BufferOp::Create {
                buffer: fresh,
                size: (state.grown_capacity(count) * state.record_size) as u64,
                usage: state.usage,
            },
            BufferOp::Copy { source: state.buffer, destination: fresh, size: start as u64 },
            BufferOp::Write { buffer: fresh, offset: start as u64, data },
        );
    }
}

/// Overwriting one slot is isolated: once the device has carried out the command of
/// `overwrite_at`, slot `index` holds `record`, every other slot holds what it held, and
/// every other buffer is as before.
pub proof fn lemma_overwrite_is_isolated(
    state: BufferState,
    index: nat,
    record: Seq<u8>,
    memory: Memory,
)
    requires
        state.wf(),
        state.backed_by(memory),
        index < state.len,
        record.len() == state.record_size,
    ensures
        ({
            let op = state.overwrite_op(index, record);
            let written = apply(memory, op);
            &&& accepted(memory, op)
            &&& state.backed_by(written)
            &&& state.record(written, index) == record
            &&& forall|slot: nat|
                slot != index && slot < state.capacity ==> #[trigger] state.record(written, slot)
                    == state.record(memory, slot)
            &&& forall|other: usize|
                memory.dom().contains(other) && other != state.buffer
                    ==> written.dom().contains(other) && #[trigger] written[other]
                    == memory[other]
        }),
{
    let size = state.record_size;
    let op = state.overwrite_op(index, record);
    let written = apply(memory, op);
    lemma_mul_le(index + 1, state.capacity, size);
    assert((index + 1) * size == index * size + size) by (nonlinear_arith);
    assert(accepted(memory, op));
    assert(state.record(written, index) =~= record);
    assert forall|slot: nat| slot != index && slot < state.capacity implies #[trigger] state.record(
        written,
        slot,
    ) == state.record(memory, slot) by {
        lemma_mul_le(slot + 1, state.capacity, size);
        assert((slot + 1) * size == slot * size + size) by (nonlinear_arith);
        if slot < index {
            lemma_mul_le(slot + 1, index, size);
        } else {
            lemma_mul_le(index + 1, slot, size);
        }
        assert(state.record(written, slot) =~= state.record(memory, slot));
    }
}


/// The batches of `batches`, one after the other.
pub open spec fn joined(batches: Seq<Seq<u8>>) -> Seq<u8>
    decreases batches.len(),
{
    if batches.len() == 0 {
        Seq::<u8>::empty()
    } else {
        joined(batches.drop_last()) + batches.last()
    }
}

/// The number of records of `record_size` bytes in all of `batches`.
pub open spec fn records_in(batches: Seq<Seq<u8>>, record_size: nat) -> nat
    decreases batches.len(),
{
    if batches.len() == 0 {
        0
    } else {
        records_in(batches.drop_last(), record_size) + batches.last().len() / record_size
    }
}

/// Whether `states` and `memories` are what a run of `append` calls goes through: call `i`
/// appends `batches[i]` with `handles[i]` as the next free handle, and the device carries out
/// its commands.
pub open spec fn is_append_run(
    states: Seq<BufferState>,
    memories: Seq<Memory>,
    batches: Seq<Seq<u8>>,
    handles: Seq<usize>,
) -> bool {
    &&& states.len() == batches.len() + 1
    &&& memories.len() == batches.len() + 1
    &&& handles.len() == batches.len()
    &&& forall|i: int|
        #![trigger batches[i]]
        0 <= i < batches.len() ==> {
            let count = batches[i].len() / states[i].record_size;
            &&& batches[i].len() % states[i].record_size == 0
            &&& !states[i].fits(count) ==> {
                &&& !memories[i].dom().contains(handles[i])
                &&& states[i].grown_capacity(count) * states[i].record_size <= u64::MAX
            }
            &&& states[i + 1] == states[i].appended(count, handles[i])
            &&& memories[i + 1] == run(memories[i], states[i].append_ops(batches[i], handles[i]))
        }
}

/// Growth is correct over any run of appends on a buffer that starts empty: after each call
/// the length is the number of records appended so far, and the buffer holds exactly the
/// appended records, in the order of the calls.
pub proof fn lemma_append_run_accumulates(
    states: Seq<BufferState>,
    memories: Seq<Memory>,
    batches: Seq<Seq<u8>>,
    handles: Seq<usize>,
    calls: int,
)
    requires
        is_append_run(states, memories, batches, handles),
        states[0].wf(),
        states[0].len == 0,
        states[0].backed_by(memories[0]),
        0 <= calls <= batches.len(),
    ensures
        states[calls].wf(),
        states[calls].record_size == states[0].record_size,
        states[calls].backed_by(memories[calls]),
        states[calls].len == records_in(batches.take(calls), states[0].record_size),
        states[calls].contents(memories[calls]) == joined(batches.take(calls)),
    decreases calls,
{
    if calls == 0 {
        assert(batches.take(0) =~= Seq::<Seq<u8>>::empty());
        assert(states[0].contents(memories[0]) =~= Seq::<u8>::empty());
    } else {
        let i = calls - 1;
        lemma_append_run_accumulates(states, memories, batches, handles, i);
        let batch = batches[i];
        lemma_append_extends_contents(states[i], batch, handles[i], memories[i]);
        assert(batches.take(calls).drop_last() =~= batches.take(i));
        assert(batches.take(calls).last() == batch);
    }
}


impl DynamicBuffer {
    /// The invariant of the bookkeeping: records have a size, the length is within the
    /// capacity, and the allocation's byte size is a machine integer.
    pub closed spec fn wf(&self) -> bool {
        &&& self@.wf()
        &&& self.capacity * self.record_size <= usize::MAX
    }

    /// A well-formed buffer's sizes are machine integers.
    pub proof fn lemma_wf_bounds(&self)
        requires
            self.wf(),
        ensures
            self@.wf(),
            self@.capacity * self@.record_size <= usize::MAX,
            self@.len <= usize::MAX,
            self@.capacity <= usize::MAX,
            self@.record_size <= usize::MAX,
    {
    }

    /// An empty buffer with room for `initial_capacity` records of `record_size` bytes, and
    /// the command that allocates it under the next handle of `ids`. The buffer can always be
    /// written to, whatever `usage` says.
    pub fn with_capacity(
        ids: &mut IndexDriver,
        initial_capacity: usize,
        record_size: usize,
        usage: BufferUsage,
    ) -> (created: (DynamicBuffer, BufferCommand))
        requires
            record_size > 0,
            initial_capacity * record_size <= usize::MAX,
            old(ids).next() < usize::MAX,
        ensures
            final(ids).next() == old(ids).next() + 1,
            created.0.wf(),
            created.0@ == (BufferState {
                buffer: old(ids).next() as usize,
                usage: usage.writable(),
                record_size: record_size as nat,
                capacity: initial_capacity as nat,
                len: 0,
            }),
            created.1@ == (BufferOp::Create {
                buffer: old(ids).next() as usize,
                size: (initial_capacity * record_size) as u64,
                usage: usage.writable(),
            }),
    {
        let buffer: usize = ids.next_id();
        let usage = BufferUsage {
            copy_src: usage.copy_src,
            copy_dst: true,
            index: usage.index,
            vertex: usage.vertex,
            uniform: usage.uniform,
            storage: usage.storage,
        };
        let size: usize = initial_capacity * record_size;
        (
            DynamicBuffer { buffer, usage, record_size, capacity: initial_capacity, len: 0 },
            BufferCommand::Create { buffer, size: size as u64, usage },
        )
    }

    /// Appends the records in `data` after those written so far.
    ///
    /// Where they fit, the commands write them in place. Where they do not, the commands
    /// allocate a buffer of `GROWTH_FACTOR` times the needed capacity under the next handle of
    /// `ids`, copy the records written so far into it, and write `data` behind them.
    pub fn append(&mut self, ids: &mut IndexDriver, data: &Vec<u8>) -> (commands: Vec<
        BufferCommand,
    >)
        requires
            old(self).wf(),
            data@.len() % old(self)@.record_size == 0,
            !old(self)@.fits(data@.len() / old(self)@.record_size) ==> {
                &&& old(ids).next() < usize::MAX
                &&& old(self)@.grown_capacity(data@.len() / old(self)@.record_size) * old(
                    self,
                )@.record_size <= usize::MAX
            },
        ensures
            final(self).wf(),
            final(self)@ == old(self)@.appended(
                data@.len() / old(self)@.record_size,
                old(ids).next() as usize,
            ),
            buffer_ops(commands@) == old(self)@.append_ops(data@, old(ids).next() as usize),
            final(ids).next() == if old(self)@.fits(data@.len() / old(self)@.record_size) {
                old(ids).next()
            } else {
                old(ids).next() + 1
            },
    {
        let count: usize = data.len() / self.record_size;
        let ghost before = self@;
        let ghost fresh = ids.next() as usize;
        proof {
            lemma_mul_le(self.len as nat, self.capacity as nat, self.record_size as nat);
            lemma_div_mul(data@.len(), self.record_size as nat);
        }
        let mut commands: Vec<BufferCommand> = Vec::new();
        if count > self.capacity - self.len {
            proof {
                assert(before.grown_capacity(count as nat) == (self.len + count) * 2);
                assert((self.len + count) * 2 <= (self.len + count) * 2 * self.record_size)
                    by (nonlinear_arith)
                    requires
                        self.record_size > 0,
                ;
                assert(self.len * self.record_size <= (self.len + count) * 2
                    * self.record_size) by (nonlinear_arith);
            }
            let new_capacity: usize = (self.len + count) * GROWTH_FACTOR;
            let new_size: usize = new_capacity * self.record_size;
            let buffer: usize = ids.next_id();
            commands.push(BufferCommand::Create { buffer, size: new_size as u64,
                usage: self.usage });
            commands.push(
                BufferCommand::Copy {
                    source: self.buffer,
                    destination: buffer,
                    size: (self.len * self.record_size) as u64,
                },
            );
            self.capacity = new_capacity;
            self.buffer = buffer;
        }
        let offset: usize = self.len * self.record_size;
        commands.push(BufferCommand::Write { buffer: self.buffer, offset: offset as u64,
            data: data.clone() });
        self.len = self.len + count;
        proof {
            assert(buffer_ops(commands@) =~= before.append_ops(data@, fresh));
        }
        commands
    }

    /// The command that replaces the record in slot `index` by `record` and touches nothing
    /// else.
    pub fn overwrite_at(&self, index: usize, record: &Vec<u8>) -> (command: BufferCommand)
        requires
            self.wf(),
            index < self@.len,
            record@.len() == self@.record_size,
        ensures
            command@ == self@.overwrite_op(index as nat, record@),
    {
        proof {
            lemma_mul_le(index as nat, self.capacity as nat, self.record_size as nat);
        }
        let offset: usize = index * self.record_size;
        BufferCommand::Write { buffer: self.buffer, offset: offset as u64, data: record.clone() }
    }

    /// Handle of the live allocation.
    pub fn get_buffer(&self) -> (buffer: usize)
        ensures
            buffer == self@.buffer,
    {
        self.buffer
    }

    /// Records that the live allocation can hold.
    pub fn capacity(&self) -> (capacity: usize)
        ensures
            capacity == self@.capacity,
    {
        self.capacity
    }

    /// Records written so far.
    pub fn len(&self) -> (len: usize)
        ensures
            len == self@.len,
    {
        self.len
    }

    /// Bytes per record.
    pub fn record_size(&self) -> (record_size: usize)
        ensures
            record_size == self@.record_size,
    {
        self.record_size
    }

    /// What the live allocation may be used for.
    pub fn usage(&self) -> (usage: BufferUsage)
        ensures
            usage == self@.usage,
    {
        self.usage
    }
}

} // verus!
