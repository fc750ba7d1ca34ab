use vstd::prelude::*;

verus! {

/// What a buffer may be used for on the device.
#[derive(Clone, Copy, Debug, PartialEq, Eq, Structural)]
pub struct BufferUsage {
    pub copy_src: bool,
    pub copy_dst: bool,
    pub index: bool,
    pub vertex: bool,
    pub uniform: bool,
    pub storage: bool,
}

impl BufferUsage {
    /// The same usage with the copy-destination flag switched on.
    pub open spec fn writable(self) -> BufferUsage {
        BufferUsage {
            copy_src: self.copy_src,
            copy_dst: true,
            index: self.index,
            vertex: self.vertex,
            uniform: self.uniform,
            storage: self.storage,
        }
    }

    /// Usage of a buffer of indices that is filled when it is created.
    pub open spec fn index_only() -> BufferUsage {
        BufferUsage {
            copy_src: false,
            copy_dst: false,
            index: true,
            vertex: false,
            uniform: false,
            storage: false,
        }
    }

    /// Usage of a buffer of vertices that is filled when it is created.
    pub open spec fn vertex_only() -> BufferUsage {
        BufferUsage {
            copy_src: false,
            copy_dst: false,
            index: false,
            vertex: true,
            uniform: false,
            storage: false,
        }
    }

    /// Usage of a buffer of vertices that can be written to.
    pub open spec fn vertex_writable() -> BufferUsage {
        BufferUsage {
            copy_src: false,
            copy_dst: true,
            index: false,
            vertex: true,
            uniform: false,
            storage: false,
        }
    }

    /// Usage of a storage buffer that is filled when it is created.
    pub open spec fn storage_only() -> BufferUsage {
        BufferUsage {
            copy_src: false,
            copy_dst: false,
            index: false,
            vertex: false,
            uniform: false,
            storage: true,
        }
    }

    /// Usage of a storage buffer that can be copied from and written to.
    pub open spec fn instance_storage() -> BufferUsage {
        BufferUsage {
            copy_src: true,
            copy_dst: true,
            index: false,
            vertex: false,
            uniform: false,
            storage: true,
        }
    }
}

/// One operation on the device's storage buffers, to be carried out in order.
#[derive(Debug)]
pub enum BufferCommand {
    /// Allocate a zero-filled buffer of `size` bytes under the handle `buffer`.
    Create { buffer: usize, size: u64, usage: BufferUsage },
    /// Allocate a buffer that holds `contents` under the handle `buffer`.
    CreateInit { buffer: usize, contents: Vec<u8>, usage: BufferUsage },
    /// Copy the first `size` bytes of `source` to the start of `destination`.
    Copy { source: usize, destination: usize, size: u64 },
    /// Overwrite the bytes of `buffer` that start at `offset` with `data`.
    Write { buffer: usize, offset: u64, data: Vec<u8> },
}

/// The mathematical content of a `BufferCommand`.
pub enum BufferOp {
    Create { buffer: usize, size: u64, usage: BufferUsage },
    CreateInit { buffer: usize, contents: Seq<u8>, usage: BufferUsage },
    Copy { source: usize, destination: usize, size: u64 },
    Write { buffer: usize, offset: u64, data: Seq<u8> },
}

impl View for BufferCommand {
    type V = BufferOp;

    open spec fn view(&self) -> BufferOp {
        match *self {
            BufferCommand::Create { buffer, size, usage } => BufferOp::Create {
                buffer,
                size,
                usage,
            },
            BufferCommand::CreateInit { buffer, contents, usage } => BufferOp::CreateInit {
                buffer,
                contents: contents@,
                usage,
            },
            BufferCommand::Copy { source, destination, size } => BufferOp::Copy {
                source,
                destination,
                size,
            },
            BufferCommand::Write { buffer, offset, data } => BufferOp::Write {
                buffer,
                offset,
                data: data@,
            },
        }
    }
}

/// The operations that a list of commands stands for.
pub open spec fn buffer_ops(commands: Seq<BufferCommand>) -> Seq<BufferOp> {
    Seq::new(commands.len(), |i: int| commands[i]@)
}

/// Device memory: the bytes of each allocated storage buffer, by handle.
pub type Memory = Map<usize, Seq<u8>>;

/// `base` with the bytes from `offset` on replaced by `data`.
pub open spec fn overwrite(base: Seq<u8>, offset: int, data: Seq<u8>) -> Seq<u8>
    recommends
        0 <= offset,
        offset + data.len() <= base.len(),
{
    Seq::new(
        base.len(),
        |i: int|
            if offset <= i < offset + data.len() {
                data[i - offset]
            } else {
                base[i]
            },
    )
}

/// Whether the device accepts `op` in the state `memory`.
pub open spec fn accepted(memory: Memory, op: BufferOp) -> bool {
    match op {
        BufferOp::Create { buffer, size, usage } => !memory.dom().contains(buffer),
        BufferOp::CreateInit { buffer, contents, usage } => !memory.dom().contains(buffer),
        BufferOp::Copy { source, destination, size } => {
            &&& memory.dom().contains(source)
            &&& memory.dom().contains(destination)
            &&& source != destination
            &&& size <= memory[source].len()
            &&& size <= memory[destination].len()
        },
        BufferOp::Write { buffer, offset, data } => {
            &&& memory.dom().contains(buffer)
            &&& offset + data.len() <= memory[buffer].len()
        },
    }
}

/// Device memory after `op`. An operation that the device does not accept changes nothing.
pub open spec fn apply(memory: Memory, op: BufferOp) -> Memory {
    if !accepted(memory, op) {
        memory
    } else {
        match op {
            BufferOp::Create { buffer, size, usage } => memory.insert(
                buffer,
                Seq::new(size as nat, |i: int| 0u8),
            ),
            BufferOp::CreateInit { buffer, contents, usage } => memory.insert(buffer, contents),
            BufferOp::Copy { source, destination, size } => memory.insert(
                destination,
                overwrite(memory[destination], 0, memory[source].subrange(0, size as int)),
            ),
            BufferOp::Write { buffer, offset, data } => memory.insert(
                buffer,
                overwrite(memory[buffer], offset as int, data),
            ),
        }
    }
}

/// Device memory after all of `ops`, first to last.
pub open spec fn run(memory: Memory, ops: Seq<BufferOp>) -> Memory
    decreases ops.len(),
{
    if ops.len() == 0 {
        memory
    } else {
        apply(run(memory, ops.drop_last()), ops.last())
    }
}

/// Whether the device accepts every one of `ops` when they run in order from `memory`.
pub open spec fn all_accepted(memory: Memory, ops: Seq<BufferOp>) -> bool
    decreases ops.len(),
{
    if ops.len() == 0 {
        true
    } else {
        all_accepted(memory, ops.drop_last()) && accepted(
            run(memory, ops.drop_last()),
            ops.last(),
        )
    }
}

/// One step of setting up or updating what a drawer has on the device.
#[derive(Debug)]
pub enum Command {
    /// An operation on a buffer.
    Buffer(BufferCommand),
    /// Create, under the handle `bind_group`, the bind group of the textures of the material
    /// in place `material` of the model's materials: diffuse view and sampler at the
    /// bindings 0 and 1, normal view and sampler at 2 and 3.
    MaterialBindGroup { bind_group: usize, material: usize },
    /// Create, under the handle `bind_group`, the bind group of a model: the shared camera
    /// uniform at binding 0 and the buffer `instances` at binding 1.
    UniformBindGroup { bind_group: usize, instances: usize },
}

/// The mathematical content of a `Command`.
pub enum CommandOp {
    Buffer(BufferOp),
    MaterialBindGroup { bind_group: usize, material: usize },
    UniformBindGroup { bind_group: usize, instances: usize },
}

impl View for Command {
    type V = CommandOp;

    open spec fn view(&self) -> CommandOp {
        match *self {
            Command::Buffer(command) => CommandOp::Buffer(command@),
            Command::MaterialBindGroup { bind_group, material } => CommandOp::MaterialBindGroup {
                bind_group,
                material,
            },
            Command::UniformBindGroup { bind_group, instances } => CommandOp::UniformBindGroup {
                bind_group,
                instances,
            },
        }
    }
}

/// The operations that a list of commands stands for.
pub open spec fn command_ops(commands: Seq<Command>) -> Seq<CommandOp> {
    Seq::new(commands.len(), |i: int| commands[i]@)
}

/// The operations of a list with one more command.
pub proof fn lemma_command_ops_push(commands: Seq<Command>, command: Command)
    ensures
        command_ops(commands.push(command)) == command_ops(commands).push(command@),
{
    assert(command_ops(commands.push(command)) =~= command_ops(commands).push(command@));
}

/// The buffer operations among `ops`, in order.
pub open spec fn buffer_part(ops: Seq<CommandOp>) -> Seq<BufferOp>
    decreases ops.len(),
{
    if ops.len() == 0 {
        Seq::<BufferOp>::empty()
    } else {
        match ops.last() {
            CommandOp::Buffer(op) => buffer_part(ops.drop_last()).push(op),
            _ => buffer_part(ops.drop_last()),
        }
    }
}

/// How the vertices of a draw call are assembled.
#[derive(Clone, Copy, Debug, PartialEq, Eq, Structural)]
pub enum PrimitiveTopology {
    TriangleList,
    LineList,
}

/// A bind group that a draw call binds.
#[derive(Clone, Copy, Debug, PartialEq, Eq, Structural)]
pub enum BindGroup {
    /// The bind group that a drawer created under this handle.
    Created(usize),
    /// The light of the drawer.
    Light,
    /// The camera uniform alone.
    Camera,
}

/// One call on an open render pass.
#[derive(Clone, Copy, Debug, PartialEq, Eq, Structural)]
pub enum DrawCommand {
    /// Bind the pipeline of the drawer.
    SetPipeline,
    SetBindGroup { slot: u32, bind_group: BindGroup },
    /// Bind the whole of `buffer` as vertex buffer `slot`.
    SetVertexBuffer { slot: u32, buffer: usize },
    /// Bind the whole of `buffer` as a buffer of 32-bit indices.
    SetIndexBuffer { buffer: usize },
    /// Draw the indices `0..indices` for the instances `0..instances`.
    DrawIndexed { indices: u32, instances: u32 },
    /// Draw the vertices `0..vertices` for the instances `0..instances`.
    Draw { vertices: u32, instances: u32 },
}

/// Running one more operation is applying it to what ran before.
pub proof fn lemma_run_push(memory: Memory, ops: Seq<BufferOp>, op: BufferOp)
    ensures
        run(memory, ops.push(op)) == apply(run(memory, ops), op),
        all_accepted(memory, ops.push(op)) == (all_accepted(memory, ops) && accepted(
            run(memory, ops),
            op,
        )),
{
    assert(ops.push(op).drop_last() =~= ops);
    assert(ops.push(op).last() == op);
}

/// The buffer operations of two lists, one after the other, are those of their
/// concatenation.
pub proof fn lemma_buffer_part_concat(first: Seq<CommandOp>, second: Seq<CommandOp>)
    ensures
        buffer_part(first + second) == buffer_part(first) + buffer_part(second),
    decreases second.len(),
{
    if second.len() == 0 {
        assert(first + second =~= first);
        assert(buffer_part(first) + buffer_part(second) =~= buffer_part(first));
    } else {
        lemma_buffer_part_concat(first, second.drop_last());
        assert((first + second).drop_last() =~= first + second.drop_last());
        assert((first + second).last() == second.last());
        match second.last() {
            CommandOp::Buffer(op) => {
                assert(buffer_part(first + second) =~= buffer_part(first) + buffer_part(second));
            },
            _ => {},
        }
    }
}

/// A list without buffer operations has none.
pub proof fn lemma_buffer_part_none(ops: Seq<CommandOp>)
    requires
        forall|i: int| 0 <= i < ops.len() ==> !(#[trigger] ops[i] is Buffer),
    ensures
        buffer_part(ops) == Seq::<BufferOp>::empty(),
    decreases ops.len(),
{
    if ops.len() > 0 {
        assert(!(ops[ops.len() - 1] is Buffer));
        lemma_buffer_part_none(ops.drop_last());
    }
}

/// A list of buffer operations alone has all of them, in order.
pub proof fn lemma_buffer_part_all(ops: Seq<CommandOp>)
    requires
        forall|i: int| 0 <= i < ops.len() ==> #[trigger] ops[i] is Buffer,
    ensures
        buffer_part(ops).len() == ops.len(),
        forall|i: int| 0 <= i < ops.len()
            ==> CommandOp::Buffer(#[trigger] buffer_part(ops)[i]) == ops[i],
    decreases ops.len(),
{
    if ops.len() > 0 {
        assert(ops[ops.len() - 1] is Buffer);
        lemma_buffer_part_all(ops.drop_last());
        assert forall|i: int| 0 <= i < ops.len() implies CommandOp::Buffer(
            #[trigger] buffer_part(ops)[i],
        ) == ops[i] by {
            if i < ops.len() - 1 {
                assert(buffer_part(ops.drop_last())[i] == buffer_part(ops)[i]);
                assert(ops.drop_last()[i] == ops[i]);
            }
        }
    }
}

/// The handle under which `op` creates a filled buffer.
pub open spec fn created_handle(op: BufferOp) -> usize {
    match op {
        BufferOp::CreateInit { buffer, .. } => buffer,
        _ => 0,
    }
}

/// The bytes with which `op` fills the buffer that it creates.
pub open spec fn created_contents(op: BufferOp) -> Seq<u8> {
    match op {
        BufferOp::CreateInit { contents, .. } => contents,
        _ => Seq::<u8>::empty(),
    }
}

/// Creating filled buffers under new handles adds them and changes nothing else: where
/// every handle of `memory` lies below `base` and `ops` create buffers under distinct
/// handles from `base` up to `limit`, the device accepts all of `ops`; afterwards it holds
/// each created buffer with its contents and every earlier buffer as it was, and no handle
/// from `limit` on.
pub proof fn lemma_run_uploads(memory: Memory, ops: Seq<BufferOp>, base: nat, limit: nat)
    requires
        forall|handle: usize| #[trigger] memory.dom().contains(handle) ==> handle < base,
        forall|i: int|
            0 <= i < ops.len() ==> (#[trigger] ops[i]) is CreateInit && base <= created_handle(
                ops[i],
            ) < limit,
        forall|i: int, j: int|
            0 <= i < j < ops.len() ==> created_handle(#[trigger] ops[i]) != created_handle(
                #[trigger] ops[j],
            ),
        base <= limit,
    ensures
        all_accepted(memory, ops),
        forall|handle: usize| #[trigger]
            memory.dom().contains(handle) ==> run(memory, ops).dom().contains(handle) && run(
                memory,
                ops,
            )[handle] == memory[handle],
        forall|i: int|
            0 <= i < ops.len() ==> run(memory, ops).dom().contains(created_handle(ops[i]))
                && run(memory, ops)[created_handle(#[trigger] ops[i])] == created_contents(ops[i]),
        forall|handle: usize| #[trigger] run(memory, ops).dom().contains(handle) ==> handle < limit,
    decreases ops.len(),
{
    if ops.len() > 0 {
        let earlier = ops.drop_last();
        let last = ops.last();
        assert forall|i: int| 0 <= i < earlier.len() implies (#[trigger] earlier[i]) is CreateInit
            && base <= created_handle(earlier[i]) < limit by {
            assert(earlier[i] == ops[i]);
        }
        assert forall|i: int, j: int| 0 <= i < j < earlier.len() implies created_handle(
            #[trigger] earlier[i],
        ) != created_handle(#[trigger] earlier[j]) by {
            assert(earlier[i] == ops[i] && earlier[j] == ops[j]);
        }
        lemma_run_uploads(memory, earlier, base, limit);
        let before = run(memory, earlier);
        let handle = created_handle(last);
        assert(last == ops[ops.len() - 1]);
        assert(!before.dom().contains(handle)) by {
            if before.dom().contains(handle) {
                // it is neither an earlier handle of memory nor one that was created
                lemma_created_only(memory, earlier, handle);
                if memory.dom().contains(handle) {
                    assert(handle < base);
                } else {
                    let i = choose|i: int|
                        0 <= i < earlier.len() && created_handle(#[trigger] earlier[i]) == handle;
                    assert(earlier[i] == ops[i]);
                    assert(created_handle(ops[i]) != created_handle(ops[ops.len() - 1]));
                }
            }
        }
        assert(accepted(before, last));
        assert forall|held: usize| #[trigger] memory.dom().contains(held) implies run(
            memory,
            ops,
        ).dom().contains(held) && run(memory, ops)[held] == memory[held] by {
            assert(before[held] == memory[held]);
            assert(held < base);
        }
        assert forall|i: int| 0 <= i < ops.len() implies run(memory, ops).dom().contains(
            created_handle(ops[i]),
        ) && run(memory, ops)[created_handle(#[trigger] ops[i])] == created_contents(ops[i]) by {
            if i < ops.len() - 1 {
                assert(earlier[i] == ops[i]);
                assert(created_handle(ops[i]) != created_handle(ops[ops.len() - 1]));
            }
        }
    }
}

/// A handle that the device holds after filled buffers were created is one that it held
/// before or one of the created ones.
proof fn lemma_created_only(memory: Memory, ops: Seq<BufferOp>, handle: usize)
    requires
        forall|i: int| 0 <= i < ops.len() ==> (#[trigger] ops[i]) is CreateInit,
        run(memory, ops).dom().contains(handle),
    ensures
        memory.dom().contains(handle) || exists|i: int|
            0 <= i < ops.len() && created_handle(#[trigger] ops[i]) == handle,
    decreases ops.len(),
{
    if ops.len() > 0 {
        let earlier = ops.drop_last();
        assert forall|i: int| 0 <= i < earlier.len()
            implies (#[trigger] earlier[i]) is CreateInit by {
            assert(earlier[i] == ops[i]);
        }
        assert(ops[ops.len() - 1] is CreateInit);
        if run(memory, earlier).dom().contains(handle) {
            lemma_created_only(memory, earlier, handle);
            if !memory.dom().contains(handle) {
                let i = choose|i: int|
                    0 <= i < earlier.len() && created_handle(#[trigger] earlier[i]) == handle;
                assert(earlier[i] == ops[i]);
            }
        } else {
            assert(created_handle(ops[ops.len() - 1]) == handle);
        }
    }
}

} // verus!
