use crate::bytes::{is_memory_of, words_to_bytes};
use crate::gpu::{
    accepted, apply, BindGroup, BufferCommand, BufferOp, BufferUsage, Command, CommandOp,
    DrawCommand, Memory,
};
use crate::model::SimpleVertex;
use crate::renderer::render::Drawer;
use vstd::prelude::*;

verus! {

/// The handle of the buffer that holds the line.
pub const LINE_BUFFER: usize = 0;

/// Bytes of the two vertices of the line.
pub const LINE_SIZE: usize = 24;

/// The coordinate of the first vertex of the line that a new drawer shows: 0.1.
pub const DEFAULT_START: u32 = 0x3DCC_CCCD;

/// The coordinate of the second vertex of the line that a new drawer shows: 5.3.
pub const DEFAULT_END: u32 = 0x40A9_999A;

/// The words of the line from `start` to `end` as the vertex buffer holds them.
pub open spec fn line_words(start: SimpleVertex, end: SimpleVertex) -> Seq<u32> {
    start.position@ + end.position@
}

/// Whether `op` creates the line's vertex buffer with the line that a new drawer shows.
pub open spec fn is_line_setup(op: CommandOp) -> bool {
    match op {
        CommandOp::Buffer(BufferOp::CreateInit { buffer, contents, usage }) => {
            &&& buffer == LINE_BUFFER
            &&& usage == BufferUsage::vertex_writable()
            &&& is_memory_of(
                contents,
                seq![
                    DEFAULT_START,
                    DEFAULT_START,
                    DEFAULT_START,
                    DEFAULT_END,
                    DEFAULT_END,
                    DEFAULT_END,
                ],
            )
        },
        _ => false,
    }
}

/// Whether `op` overwrites the line's vertex buffer with the line from `start` to `end`.
pub open spec fn is_line_update(op: CommandOp, start: SimpleVertex, end: SimpleVertex) -> bool {
    match op {
        CommandOp::Buffer(BufferOp::Write { buffer, offset, data }) => {
            &&& buffer == LINE_BUFFER
            &&& offset == 0
            &&& is_memory_of(data, line_words(start, end))
        },
        _ => false,
    }
}

/// The calls that draw the line: two vertices, once.
pub open spec fn line_plan() -> Seq<DrawCommand> {
    seq![
        DrawCommand::SetPipeline,
        DrawCommand::SetVertexBuffer { slot: 0, buffer: LINE_BUFFER },
        DrawCommand::SetBindGroup { slot: 0, bind_group: BindGroup::Camera },
        DrawCommand::Draw { vertices: 2, instances: 1 },
    ]
}

/// Draws one line segment, which can be moved.
#[derive(Clone, Copy, Debug)]
pub struct DebugDrawer {
    vertex_buff: usize,
}

impl DebugDrawer {
    pub closed spec fn wf(&self) -> bool {
        self.vertex_buff == LINE_BUFFER
    }

    /// The drawer, and the command that creates its vertex buffer.
    pub fn new() -> (created: (DebugDrawer, Command))
        ensures
            created.0.wf(),
            is_line_setup(created.1@),
    {
        let mut words: Vec<u32> = Vec::new();
        words.push(DEFAULT_START);
        words.push(DEFAULT_START);
        words.push(DEFAULT_START);
        words.push(DEFAULT_END);
        words.push(DEFAULT_END);
        words.push(DEFAULT_END);
        proof {
            assert(words@ =~= seq![
                DEFAULT_START,
                DEFAULT_START,
                DEFAULT_START,
                DEFAULT_END,
                DEFAULT_END,
                DEFAULT_END,
            ]);
        }
        let contents = words_to_bytes(&words);
        (
            DebugDrawer { vertex_buff: LINE_BUFFER },
            Command::Buffer(
                BufferCommand::CreateInit {
                    buffer: LINE_BUFFER,
                    contents,
                    usage: BufferUsage {
                        copy_src: false,
                        copy_dst: true,
                        index: false,
                        vertex: true,
                        uniform: false,
                        storage: false,
                    },
                },
            ),
        )
    }

    /// The command that makes the line run from `start` to `end`: it overwrites both
    /// vertices in place.
    pub fn add_line(&self, start: SimpleVertex, end: SimpleVertex) -> (command: Command)
        requires
            self.wf(),
        ensures
            is_line_update(command@, start, end),
    {
        let mut words: Vec<u32> = Vec::new();
        words.push(start.position[0]);
        words.push(start.position[1]);
        words.push(start.position[2]);
        words.push(end.position[0]);
        words.push(end.position[1]);
        words.push(end.position[2]);
        proof {
            assert(words@ =~= line_words(start, end));
        }
        let data = words_to_bytes(&words);
        Command::Buffer(BufferCommand::Write { buffer: self.vertex_buff, offset: 0, data })
    }
}

impl Drawer for DebugDrawer {
    open spec fn draw_plan(&self) -> Seq<DrawCommand> {
        line_plan()
    }

    open spec fn ready(&self) -> bool {
        self.wf()
    }

    fn draw(&self) -> (commands: Vec<DrawCommand>) {
        let mut commands: Vec<DrawCommand> = Vec::new();
        commands.push(DrawCommand::SetPipeline);
        commands.push(DrawCommand::SetVertexBuffer { slot: 0, buffer: self.vertex_buff });
        commands.push(DrawCommand::SetBindGroup { slot: 0, bind_group: BindGroup::Camera });
        commands.push(DrawCommand::Draw { vertices: 2, instances: 1 });
        proof {
            assert(commands@ =~= line_plan());
        }
        commands
    }
}

/// The line's buffer holds the line that was added last, and nothing else: once the device
/// has carried out an update of a buffer that was set up, the buffer's contents are the two
/// vertices `start` and `end`.
pub proof fn lemma_line_buffer_holds_line(
    memory: Memory,
    update: BufferOp,
    start: SimpleVertex,
    end: SimpleVertex,
)
    requires
        memory.dom().contains(LINE_BUFFER),
        memory[LINE_BUFFER].len() == LINE_SIZE,
        is_line_update(CommandOp::Buffer(update), start, end),
    ensures
        accepted(memory, update),
        is_memory_of(apply(memory, update)[LINE_BUFFER], line_words(start, end)),
        forall|other: usize|
            memory.dom().contains(other) && other != LINE_BUFFER ==> #[trigger] apply(
                memory,
                update,
            )[other] == memory[other],
{
    match update {
        BufferOp::Write { buffer, offset, data } => {
            crate::bytes::lemma_memory_len(data, line_words(start, end));
            assert(apply(memory, update)[LINE_BUFFER] =~= data);
        },
        _ => {},
    }
}

} // verus!
