use crate::buffer::{BufferState, DynamicBuffer};
use crate::bytes::is_memory_of;
use crate::gpu::{
    command_ops, lemma_command_ops_push, BindGroup, BufferCommand, BufferOp, BufferUsage,
    Command, CommandOp, DrawCommand, PrimitiveTopology,
};
use crate::index::IndexDriver;
use crate::model::{vertex_words, Mesh, Model};
use crate::registry::ResourceRegistry;
use crate::renderer::render::{Drawer, InternalMesh, InternalModel};
use crate::scene::{
    raw_transform_bytes, transform_words, Object, RawTransform, RAW_TRANSFORM_SIZE,
};
use vstd::prelude::*;

verus! {

/// What a model drawer holds, as mathematical values.
pub struct ModelDrawerView {
    /// The next handle that the drawer hands out.
    pub next: nat,
    pub topology: PrimitiveTopology,
    /// The models in the order in which they were initialised, which is the order in which
    /// they are drawn.
    pub models: Seq<InternalModel>,
    /// The bind group of each material.
    pub material_bind_groups: Map<usize, usize>,
    /// The uniform bind group of each model.
    pub uniform_bind_groups: Map<usize, usize>,
    /// The vertex buffer of each mesh.
    pub vertex_buffers: Map<usize, usize>,
    /// The index buffer of each mesh.
    pub index_buffers: Map<usize, usize>,
    /// The instance buffer of each model.
    pub instance_buffers: Map<usize, BufferState>,
}

/// Bytes of one instance record: a model matrix.
pub const INSTANCE_SIZE: usize = RAW_TRANSFORM_SIZE;

/// Records that the instance buffer of a new model has room for.
pub const INITIAL_INSTANCES: usize = 4;

impl ModelDrawerView {
    /// Whether the model `model_id` was initialised.
    pub open spec fn knows(self, model_id: usize) -> bool {
        self.instance_buffers.dom().contains(model_id)
    }

    /// The place of the model `model_id` in the order of drawing.
    pub open spec fn place_of(self, model_id: usize) -> int {
        choose|i: int| 0 <= i < self.models.len() && (#[trigger] self.models[i]).id == model_id
    }

    /// The instances that the next draw covers for the model `model_id`.
    pub open spec fn num_of_instances(self, model_id: usize) -> nat {
        self.models[self.place_of(model_id)].num_of_instances as nat
    }

    /// Whether `model` can be initialised: it is sound and new to the drawer, and the drawer
    /// has handles left for its materials, its meshes and their buffers, its instance buffer
    /// and its bind group.
    pub open spec fn can_init(self, model: Model) -> bool {
        &&& model.wf()
        &&& !self.knows(model.id)
        &&& self.next + 2 * model.materials@.len() + 3 * model.meshes@.len() + 2 <= usize::MAX
    }

    /// Whether `count` instances of the model `model_id` can be added: the model was
    /// initialised, the drawer has two handles left, and the size of a larger instance
    /// buffer, where one is needed, is a machine integer.
    pub open spec fn can_add(self, model_id: usize, count: nat) -> bool {
        &&& self.knows(model_id)
        &&& self.next + 2 <= usize::MAX
        &&& !self.instance_buffers[model_id].fits(count)
            ==> self.instance_buffers[model_id].grown_capacity(count) * INSTANCE_SIZE
            <= usize::MAX
    }

    /// Whether everything that one mesh of a model needs for drawing is registered.
    pub open spec fn mesh_ready(self, mesh: InternalMesh) -> bool {
        &&& self.vertex_buffers.dom().contains(mesh.id)
        &&& self.index_buffers.dom().contains(mesh.id)
        &&& match mesh.material_id {
            Some(material) => self.material_bind_groups.dom().contains(material),
            None => true,
        }
    }

    /// The invariant of a drawer: models have distinct handles; each has a uniform bind
    /// group and an instance buffer of its own, whose length is the model's number of
    /// instances; every mesh has its buffers and its material; and every handle that the
    /// drawer has handed out lies below the next one.
    pub open spec fn wf(self) -> bool {
        &&& forall|i: int, j: int|
            0 <= i < j < self.models.len() ==> (#[trigger] self.models[i]).id != (
            #[trigger] self.models[j]).id
        &&& forall|id: usize| #[trigger]
            self.instance_buffers.dom().contains(id) <==> exists|i: int|
                0 <= i < self.models.len() && (#[trigger] self.models[i]).id == id
        &&& forall|id: usize|
            self.instance_buffers.dom().contains(id)
                <==> #[trigger] self.uniform_bind_groups.dom().contains(
                id,
            )
        &&& forall|i: int|
            0 <= i < self.models.len() ==> {
                let model = #[trigger] self.models[i];
                let buffer = self.instance_buffers[model.id];
                &&& buffer.wf()
                &&& buffer.record_size == INSTANCE_SIZE
                &&& buffer.len == model.num_of_instances
                &&& buffer.capacity * buffer.record_size <= usize::MAX
                &&& buffer.buffer < self.next
            }
        &&& forall|a: usize, b: usize|
            self.instance_buffers.dom().contains(a) && self.instance_buffers.dom().contains(b) && a
                != b ==> (#[trigger] self.instance_buffers[a]).buffer != (
            #[trigger] self.instance_buffers[b]).buffer
        &&& forall|i: int, k: int|
            0 <= i < self.models.len() && 0 <= k < self.models[i].internal_meshes@.len()
                ==> self.mesh_ready(#[trigger] self.models[i].internal_meshes@[k])
        &&& forall|id: usize| #[trigger] self.material_bind_groups.dom().contains(id)
            ==> id < self.next
        &&& forall|id: usize| #[trigger] self.vertex_buffers.dom().contains(id) ==> id < self.next
        &&& forall|id: usize| #[trigger] self.index_buffers.dom().contains(id) ==> id < self.next
        &&& forall|id: usize| #[trigger]
            self.vertex_buffers.dom().contains(id) ==> self.vertex_buffers[id] < self.next
        &&& forall|id: usize| #[trigger]
            self.index_buffers.dom().contains(id) ==> self.index_buffers[id] < self.next
    }

    /// Whether `after` is this drawer with `model` initialised: the model comes last in the
    /// order of drawing, without instances; its materials and meshes are registered under
    /// new handles; it has an empty instance buffer and a uniform bind group; and all else
    /// is as it was.
    pub open spec fn initialised(self, model: Model, after: ModelDrawerView) -> bool {
        let materials = model.materials@.len();
        let meshes = model.meshes@.len();
        let mesh_base = self.next + 2 * materials;
        let instances = (mesh_base + 3 * meshes) as usize;
        &&& after.next == self.next + 2 * materials + 3 * meshes + 2
        &&& after.topology == self.topology
        &&& after.models.len() == self.models.len() + 1
        &&& after.models.drop_last() == self.models
        &&& after.models.last().id == model.id
        &&& after.models.last().num_of_instances == 0
        &&& after.models.last().internal_meshes@ == Seq::new(
            meshes,
            |i: int| internal_mesh(self.next, mesh_base, model, i),
        )
        &&& after.uniform_bind_groups == self.uniform_bind_groups.insert(
            model.id,
            (instances + 1) as usize,
        )
        &&& after.instance_buffers == self.instance_buffers.insert(
            model.id,
            new_instance_buffer(instances),
        )
        &&& forall|id: usize| #[trigger]
            after.material_bind_groups.dom().contains(id) <==> (
            self.material_bind_groups.dom().contains(id) || is_material_id(self.next, materials,
                id))
        &&& forall|id: usize|
            self.material_bind_groups.dom().contains(id)
                ==> #[trigger] after.material_bind_groups[id]
                == self.material_bind_groups[id]
        &&& forall|id: usize|
            is_material_id(self.next, materials, id) ==> #[trigger] after.material_bind_groups[id]
                == id + 1
        &&& forall|id: usize| #[trigger]
            after.vertex_buffers.dom().contains(id) <==> (self.vertex_buffers.dom().contains(id)
                || is_mesh_id(mesh_base, meshes, id))
        &&& forall|id: usize|
            self.vertex_buffers.dom().contains(id) ==> #[trigger] after.vertex_buffers[id]
                == self.vertex_buffers[id]
        &&& forall|id: usize|
            is_mesh_id(mesh_base, meshes, id) ==> #[trigger] after.vertex_buffers[id] == id + 2
        &&& forall|id: usize| #[trigger]
            after.index_buffers.dom().contains(id) <==> (self.index_buffers.dom().contains(id)
                || is_mesh_id(mesh_base, meshes, id))
        &&& forall|id: usize|
            self.index_buffers.dom().contains(id) ==> #[trigger] after.index_buffers[id]
                == self.index_buffers[id]
        &&& forall|id: usize|
            is_mesh_id(mesh_base, meshes, id) ==> #[trigger] after.index_buffers[id] == id + 1
    }

    /// Whether `after` is this drawer with `count` more instances of the model `model_id`:
    /// the model's number of instances has grown by exactly `count`, its instance buffer
    /// holds that many more records, it has a new uniform bind group, and all else is as
    /// it was.
    pub open spec fn instances_added(self, model_id: usize, count: nat,
        after: ModelDrawerView) -> bool {
        let buffer = self.instance_buffers[model_id];
        &&& after.next == self.next + if buffer.fits(count) {
            1nat
        } else {
            2nat
        }
        &&& after.topology == self.topology
        &&& after.models.len() == self.models.len()
        &&& forall|i: int|
            0 <= i < self.models.len() ==> {
                &&& (#[trigger] after.models[i]).id == self.models[i].id
                &&& after.models[i].internal_meshes == self.models[i].internal_meshes
                &&& after.models[i].num_of_instances == self.models[i].num_of_instances
                    + if self.models[i].id == model_id {
                    count
                } else {
                    0
                }
            }
        &&& after.instance_buffers == self.instance_buffers.insert(
            model_id,
            buffer.appended(count, self.next as usize),
        )
        &&& after.uniform_bind_groups == self.uniform_bind_groups.insert(
            model_id,
            (after.next - 1) as usize,
        )
        &&& after.material_bind_groups == self.material_bind_groups
        &&& after.vertex_buffers == self.vertex_buffers
        &&& after.index_buffers == self.index_buffers
    }

    /// The calls that draw one mesh of `model`: its buffers, the model's uniform bind group in
    /// slot 0, the material in slot 1 if the mesh has one, the light in slot 2, and one
    /// indexed draw of all the model's instances.
    pub open spec fn mesh_plan(self, model: InternalModel, mesh: InternalMesh) -> Seq<
        DrawCommand,
    > {
        let buffers = seq![
            DrawCommand::SetVertexBuffer { slot: 0, buffer: self.vertex_buffers[mesh.id] },
            DrawCommand::SetIndexBuffer { buffer: self.index_buffers[mesh.id] },
            DrawCommand::SetBindGroup {
                slot: 0,
                bind_group: BindGroup::Created(self.uniform_bind_groups[model.id]),
            },
        ];
        let material = match mesh.material_id {
            Some(material) => seq![
                DrawCommand::SetBindGroup {
                    slot: 1,
                    bind_group: BindGroup::Created(self.material_bind_groups[material]),
                },
            ],
            None => Seq::<DrawCommand>::empty(),
        };
        buffers + material + seq![
            DrawCommand::SetBindGroup { slot: 2, bind_group: BindGroup::Light },
            DrawCommand::DrawIndexed {
                indices: mesh.count as u32,
                instances: model.num_of_instances as u32,
            },
        ]
    }

    /// The calls that draw the first `meshes` meshes of `model`.
    pub open spec fn model_plan(self, model: InternalModel, meshes: nat) -> Seq<DrawCommand>
        decreases meshes,
    {
        if meshes == 0 {
            Seq::<DrawCommand>::empty()
        } else {
            self.model_plan(model, (meshes - 1) as nat) + self.mesh_plan(
                model,
                model.internal_meshes@[meshes - 1],
            )
        }
    }

    /// The calls that bind the pipeline and draw the first `models` models.
    pub open spec fn models_plan(self, models: nat) -> Seq<DrawCommand>
        decreases models,
    {
        if models == 0 {
            seq![DrawCommand::SetPipeline]
        } else {
            let model = self.models[models - 1];
            self.models_plan((models - 1) as nat) + self.model_plan(
                model,
                model.internal_meshes@.len(),
            )
        }
    }

    /// The calls of one frame: the pipeline once, then every model in order.
    pub open spec fn draw_plan(self) -> Seq<DrawCommand> {
        self.models_plan(self.models.len())
    }
}

/// The handle of the material in place `k` of a model that is initialised when `base` is the
/// next handle. The handle of its bind group is the one after it.
pub open spec fn material_id(base: nat, k: int) -> usize {
    (base + 2 * k) as usize
}

/// Whether `id` is the handle of one of the first `count` materials.
pub open spec fn is_material_id(base: nat, count: nat, id: usize) -> bool {
    base <= id < base + 2 * count && (id - base) % 2 == 0
}

/// The calls that create the bind groups of the first `count` materials.
pub open spec fn material_ops(base: nat, count: nat) -> Seq<CommandOp> {
    Seq::new(
        count,
        |k: int|
            CommandOp::MaterialBindGroup {
                bind_group: (material_id(base, k) + 1) as usize,
                material: k as usize,
            },
    )
}

/// The handle of the mesh in place `i` of a model whose meshes are registered when `base` is
/// the next handle. Its index buffer has the handle after it, its vertex buffer the one
/// after that.
pub open spec fn mesh_id(base: nat, i: int) -> usize {
    (base + 3 * i) as usize
}

/// Whether `id` is the handle of one of the first `count` meshes.
pub open spec fn is_mesh_id(base: nat, count: nat, id: usize) -> bool {
    base <= id < base + 3 * count && (id - base) % 3 == 0
}

/// Whether `op` creates the index buffer of `mesh` under the handle `buffer`.
pub open spec fn is_index_upload(op: CommandOp, buffer: usize, mesh: Mesh) -> bool {
    match op {
        CommandOp::Buffer(BufferOp::CreateInit { buffer: created, contents, usage }) => {
            &&& created == buffer
            &&& usage == BufferUsage::index_only()
            &&& is_memory_of(contents, mesh.indices@)
        },
        _ => false,
    }
}

/// Whether `op` creates the vertex buffer of `mesh` under the handle `buffer`.
pub open spec fn is_vertex_upload(op: CommandOp, buffer: usize, mesh: Mesh) -> bool {
    match op {
        CommandOp::Buffer(BufferOp::CreateInit { buffer: created, contents, usage }) => {
            &&& created == buffer
            &&& usage == BufferUsage::vertex_only()
            &&& is_memory_of(contents, vertex_words(mesh.vertices@))
        },
        _ => false,
    }
}

/// Whether `ops` create the buffers of `meshes`, mesh after mesh: first the index buffer,
/// then the vertex buffer.
pub open spec fn is_mesh_upload(ops: Seq<CommandOp>, base: nat, meshes: Seq<Mesh>) -> bool {
    &&& ops.len() == 2 * meshes.len()
    &&& forall|i: int|
        0 <= i < meshes.len() ==> {
            &&& is_index_upload(ops[2 * i], (mesh_id(base, i) + 1) as usize, #[trigger] meshes[i])
            &&& is_vertex_upload(ops[2 * i + 1], (mesh_id(base, i) + 2) as usize, meshes[i])
        }
}

/// What a drawer keeps of the mesh in place `i` of `model`, where the model's materials got
/// their handles from `material_base` on and its meshes from `mesh_base` on.
pub open spec fn internal_mesh(material_base: nat, mesh_base: nat, model: Model,
    i: int) -> InternalMesh {
    InternalMesh {
        id: mesh_id(mesh_base, i),
        count: model.meshes@[i].indices@.len() as usize,
        material_id: if model.materials@.len() == 0 {
            None
        } else {
            Some(material_id(material_base, model.meshes@[i].material_id as int))
        },
    }
}

/// The bookkeeping of the instance buffer of a new model, allocated under `buffer`.
pub open spec fn new_instance_buffer(buffer: usize) -> BufferState {
    BufferState {
        buffer,
        usage: BufferUsage::instance_storage(),
        record_size: INSTANCE_SIZE as nat,
        capacity: INITIAL_INSTANCES as nat,
        len: 0,
    }
}

/// Whether `ops` set up `model` on the device when `base` is the drawer's next handle: a
/// bind group for each material, the buffers of each mesh, an instance buffer with room
/// for `INITIAL_INSTANCES` records, and the model's uniform bind group over it.
pub open spec fn is_init_plan(ops: Seq<CommandOp>, base: nat, model: Model) -> bool {
    let materials = model.materials@.len() as int;
    let meshes = model.meshes@.len() as int;
    let instances = (base + 2 * materials + 3 * meshes) as usize;
    &&& ops.len() == materials + 2 * meshes + 2
    &&& ops.take(materials) == material_ops(base, materials as nat)
    &&& is_mesh_upload(
        ops.subrange(materials, materials + 2 * meshes),
        (base + 2 * materials) as nat,
        model.meshes@,
    )
    &&& ops[materials + 2 * meshes] == CommandOp::Buffer(
        BufferOp::Create {
            buffer: instances,
            size: (INITIAL_INSTANCES * INSTANCE_SIZE) as u64,
            usage: BufferUsage::instance_storage(),
        },
    )
    &&& ops[materials + 2 * meshes + 1] == (CommandOp::UniformBindGroup {
        bind_group: (instances + 1) as usize,
        instances,
    })
}

/// Buffer operations as commands of a drawer.
pub open spec fn as_commands(ops: Seq<BufferOp>) -> Seq<CommandOp> {
    Seq::new(ops.len(), |i: int| CommandOp::Buffer(ops[i]))
}

/// Whether `ops` append the records of `words` to the instance buffer `buffer`, with `fresh`
/// as the next handle, and then bind the buffer that holds the records afterwards in a new
/// uniform bind group.
pub open spec fn is_add_plan(ops: Seq<CommandOp>, buffer: BufferState, fresh: usize,
    words: Seq<u32>) -> bool {
    let count = (words.len() / 16) as nat;
    let after = buffer.appended(count, fresh);
    let bind_group = if buffer.fits(count) {
        fresh
    } else {
        (fresh + 1) as usize
    };
    exists|data: Seq<u8>|
        #![trigger is_memory_of(data, words)]
        is_memory_of(data, words) && ops == as_commands(buffer.append_ops(data, fresh)).push(
            CommandOp::UniformBindGroup { bind_group, instances: after.buffer },
        )
}

/// Whether `op` replaces the record in slot `slot` of the instance buffer `buffer` by the one
/// record of `words`.
pub open spec fn is_update_plan(op: CommandOp, buffer: BufferState, slot: nat,
    words: Seq<u32>) -> bool {
    exists|data: Seq<u8>|
        #![trigger is_memory_of(data, words)]
        is_memory_of(data, words) && op == CommandOp::Buffer(buffer.overwrite_op(slot, data))
}

/// A drawer stays consistent when it registers more materials and meshes and hands out
/// more handles, with its models as they were.
proof fn lemma_wf_grows(before: ModelDrawerView, after: ModelDrawerView)
    requires
        before.wf(),
        before.next <= after.next,
        after.models == before.models,
        after.uniform_bind_groups == before.uniform_bind_groups,
        after.instance_buffers == before.instance_buffers,
        forall|id: usize| #[trigger]
            before.material_bind_groups.dom().contains(id)
                ==> after.material_bind_groups.dom().contains(id),
        forall|id: usize| #[trigger]
            before.vertex_buffers.dom().contains(id) ==> after.vertex_buffers.dom().contains(id),
        forall|id: usize| #[trigger]
            before.index_buffers.dom().contains(id) ==> after.index_buffers.dom().contains(id),
        forall|id: usize| #[trigger] after.material_bind_groups.dom().contains(id)
            ==> id < after.next,
        forall|id: usize| #[trigger]
            after.vertex_buffers.dom().contains(id) ==> id < after.next && after.vertex_buffers[id]
                < after.next,
        forall|id: usize| #[trigger]
            after.index_buffers.dom().contains(id) ==> id < after.next && after.index_buffers[id]
                < after.next,
    ensures
        after.wf(),
{
    assert forall|i: int, k: int|
        0 <= i < after.models.len() && 0 <= k < after.models[i].internal_meshes@.len()
        implies after.mesh_ready(#[trigger] after.models[i].internal_meshes@[k]) by {
        let mesh = before.models[i].internal_meshes@[k];
        assert(before.mesh_ready(mesh));
    }
    assert forall|i: int| 0 <= i < after.models.len() implies {
        let model = #[trigger] after.models[i];
        let buffer = after.instance_buffers[model.id];
        &&& buffer.wf()
        &&& buffer.record_size == INSTANCE_SIZE
        &&& buffer.len == model.num_of_instances
        &&& buffer.capacity * buffer.record_size <= usize::MAX
        &&& buffer.buffer < after.next
    } by {
        let model = before.models[i];
        assert(before.instance_buffers[model.id].buffer < before.next);
    }
}

/// In a consistent drawer each known model has one place in the order of drawing.
pub proof fn lemma_place_of(view: ModelDrawerView, i: int)
    requires
        view.wf(),
        0 <= i < view.models.len(),
    ensures
        view.knows(view.models[i].id),
        view.place_of(view.models[i].id) == i,
{
    let id = view.models[i].id;
    let chosen = view.place_of(id);
    assert(view.models[i].id == id);
    if chosen < i {
        assert(view.models[chosen].id != view.models[i].id);
    } else if i < chosen {
        assert(view.models[i].id != view.models[chosen].id);
    }
}

/// Draws models: owns, by handle, the buffers of their meshes, the bind groups of their
/// materials, and for each model an instance buffer with its uniform bind group.
pub struct ModelDrawer {
    index_driver: IndexDriver,
    topology: PrimitiveTopology,
    models: Vec<InternalModel>,
    material_bind_group_registry: ResourceRegistry<usize>,
    uniform_bind_group_registry: ResourceRegistry<usize>,
    vertex_buffer_registry: ResourceRegistry<usize>,
    index_buffer_registry: ResourceRegistry<usize>,
    instance_buffer_registry: ResourceRegistry<DynamicBuffer>,
}

impl View for ModelDrawer {
    type V = ModelDrawerView;

    closed spec fn view(&self) -> ModelDrawerView {
        ModelDrawerView {
            next: self.index_driver.next(),
            topology: self.topology,
            models: self.models@,
            material_bind_groups: self.material_bind_group_registry@,
            uniform_bind_groups: self.uniform_bind_group_registry@,
            vertex_buffers: self.vertex_buffer_registry@,
            index_buffers: self.index_buffer_registry@,
            instance_buffers: Map::new(
                |id: usize| self.instance_buffer_registry@.dom().contains(id),
                |id: usize| self.instance_buffer_registry@[id]@,
            ),
        }
    }
}

impl ModelDrawer {
    /// The invariant of the drawer's view, and every instance buffer is well-formed.
    pub closed spec fn wf(&self) -> bool {
        &&& self@.wf()
        &&& forall|id: usize| #[trigger]
            self.instance_buffer_registry@.dom().contains(id)
                ==> self.instance_buffer_registry@[id].wf()
    }

    /// A well-formed drawer has a well-formed view.
    pub proof fn lemma_wf_view(&self)
        requires
            self.wf(),
        ensures
            self@.wf(),
    {
    }

    /// What a new drawer holds: nothing.
    pub open spec fn new_view(topology: PrimitiveTopology) -> ModelDrawerView {
        ModelDrawerView {
            next: 0,
            topology,
            models: Seq::empty(),
            material_bind_groups: Map::empty(),
            uniform_bind_groups: Map::empty(),
            vertex_buffers: Map::empty(),
            index_buffers: Map::empty(),
            instance_buffers: Map::empty(),
        }
    }

    /// A drawer without models, whose pipeline assembles vertices by `topology`.
    pub fn new(topology: PrimitiveTopology) -> (drawer: ModelDrawer)
        ensures
            drawer.wf(),
            drawer@ == Self::new_view(topology),
    {
        let drawer = ModelDrawer {
            index_driver: IndexDriver::new(),
            topology,
            models: Vec::new(),
            material_bind_group_registry: ResourceRegistry::new(),
            uniform_bind_group_registry: ResourceRegistry::new(),
            vertex_buffer_registry: ResourceRegistry::new(),
            index_buffer_registry: ResourceRegistry::new(),
            instance_buffer_registry: ResourceRegistry::new(),
        };
        proof {
            assert(drawer@.instance_buffers =~= Map::<usize, BufferState>::empty());
        }
        drawer
    }

    /// How the pipeline of the drawer assembles vertices.
    pub fn topology(&self) -> (topology: PrimitiveTopology)
        ensures
            topology == self@.topology,
    {
        self.topology
    }

    /// The bookkeeping of the instance buffer of the model `model_id`.
    pub fn get_instance_buffer(&self, model_id: usize) -> (buffer: DynamicBuffer)
        requires
            self.wf(),
            self@.knows(model_id),
        ensures
            buffer@ == self@.instance_buffers[model_id],
            buffer.wf(),
    {
        *self.instance_buffer_registry.get(model_id)
    }

    /// The next handle that the drawer hands out.
    pub fn next_handle(&self) -> (next: usize)
        ensures
            next == self@.next,
    {
        self.index_driver.peek()
    }

    /// Whether the model `model_id` was initialised.
    pub fn knows(&self, model_id: usize) -> (known: bool)
        ensures
            known == self@.knows(model_id),
    {
        self.instance_buffer_registry.contains(model_id)
    }

    /// Whether `model` can be initialised.
    pub fn can_init(&self, model: &Model) -> (ok: bool)
        requires
            self.wf(),
        ensures
            ok == self@.can_init(*model),
    {
        if !model.is_wf() || self.knows(model.id) {
            return false;
        }
        let next: usize = self.index_driver.peek();
        let for_materials = model.materials.len().checked_mul(2);
        let for_meshes = model.meshes.len().checked_mul(3);
        match (for_materials, for_meshes) {
            (Some(materials), Some(meshes)) => match materials.checked_add(meshes) {
                Some(both) => match both.checked_add(2) {
                    Some(all) => all.checked_add(next).is_some(),
                    None => false,
                },
                None => false,
            },
            _ => false,
        }
    }

    /// Whether `count` instances of the model `model_id` can be added.
    pub fn can_add(&self, model_id: usize, count: usize) -> (ok: bool)
        requires
            self.wf(),
        ensures
            ok == self@.can_add(model_id, count as nat),
    {
        if !self.knows(model_id) {
            return false;
        }
        if self.index_driver.peek().checked_add(2).is_none() {
            return false;
        }
        let place = self.find(model_id);
        let buffer = self.instance_buffer_registry.get(model_id);
        proof {
            assert(self@.instance_buffers[self@.models[place as int].id].wf());
            buffer.lemma_wf_bounds();
        }
        if count <= buffer.capacity() - buffer.len() {
            return true;
        }
        proof {
            assert(buffer@.grown_capacity(count as nat) == (buffer@.len + count) * 2);
            assert((buffer@.len + count) * 2 * INSTANCE_SIZE == (buffer@.len + count) * 128)
                by (nonlinear_arith);
        }
        match buffer.len().checked_add(count) {
            Some(needed) => needed.checked_mul(2 * INSTANCE_SIZE).is_some(),
            None => false,
        }
    }

    /// Whether the record of `object` can be replaced: its model was initialised and has an
    /// instance in the object's slot.
    pub fn can_update(&self, object: &Object) -> (ok: bool)
        requires
            self.wf(),
        ensures
            ok == (self@.knows(object.model_id) && object.instance_id
                < self@.instance_buffers[object.model_id].len),
    {
        if !self.knows(object.model_id) {
            return false;
        }
        object.instance_id < self.instance_buffer_registry.get(object.model_id).len()
    }

    /// The models in the order in which they are drawn.
    pub fn models(&self) -> (models: &Vec<InternalModel>)
        ensures
            models@ == self@.models,
    {
        &self.models
    }

    /// Registers a bind group for each material of `model` and returns the materials'
    /// handles in the order of the model's materials.
    fn create_material_bind_groups(&mut self, model: &Model, commands: &mut Vec<Command>) -> (ids:
        Vec<usize>)
        requires
            old(self).wf(),
            old(self)@.next + 2 * model.materials@.len() <= usize::MAX,
        ensures
            final(self).wf(),
            final(self)@.next == old(self)@.next + 2 * model.materials@.len(),
            final(self)@.topology == old(self)@.topology,
            final(self)@.models == old(self)@.models,
            final(self)@.uniform_bind_groups == old(self)@.uniform_bind_groups,
            final(self)@.vertex_buffers == old(self)@.vertex_buffers,
            final(self)@.index_buffers == old(self)@.index_buffers,
            final(self)@.instance_buffers == old(self)@.instance_buffers,
            ids@.len() == model.materials@.len(),
            forall|k: int| 0 <= k < ids@.len()
                ==> #[trigger] ids@[k] == material_id(old(self)@.next, k),
            forall|id: usize| #[trigger]
                final(self)@.material_bind_groups.dom().contains(id)
                    <==> (old(self)@.material_bind_groups.dom().contains(id) || is_material_id(
                    old(self)@.next,
                    model.materials@.len(),
                    id,
                )),
            forall|id: usize|
                old(self)@.material_bind_groups.dom().contains(id)
                    ==> #[trigger] final(self)@.material_bind_groups[id]
                        == old(self)@.material_bind_groups[id],
            forall|id: usize|
                is_material_id(old(self)@.next, model.materials@.len(), id)
                    ==> #[trigger] final(self)@.material_bind_groups[id] == id + 1,
            command_ops(final(commands)@) == command_ops(old(commands)@) + material_ops(
                old(self)@.next,
                model.materials@.len(),
            ),
    {
        let ghost before = self@;
        let ghost base = self@.next;
        let ghost count = model.materials@.len();
        let mut ids: Vec<usize> = Vec::new();
        let mut i: usize = 0;
        proof {
            assert(command_ops(commands@) =~= command_ops(old(commands)@) + material_ops(base, 0));
        }
        while i < model.materials.len()
            invariant
                self.wf(),
                before.wf(),
                base == before.next,
                count == model.materials@.len(),
                base + 2 * count <= usize::MAX,
                i <= count,
                self@.next == base + 2 * i,
                self@.topology == before.topology,
                self@.models == before.models,
                self@.uniform_bind_groups == before.uniform_bind_groups,
                self@.vertex_buffers == before.vertex_buffers,
                self@.index_buffers == before.index_buffers,
                self@.instance_buffers == before.instance_buffers,
                ids@.len() == i,
                forall|k: int| 0 <= k < i ==> #[trigger] ids@[k] == material_id(base, k),
                forall|id: usize| #[trigger]
                    self@.material_bind_groups.dom().contains(id) <==> (
                    before.material_bind_groups.dom().contains(id) || is_material_id(
                        base,
                        i as nat,
                        id,
                    )),
                forall|id: usize|
                    before.material_bind_groups.dom().contains(id)
                        ==> #[trigger] self@.material_bind_groups[id]
                        == before.material_bind_groups[id],
                forall|id: usize|
                    is_material_id(base, i as nat, id) ==> #[trigger] self@.material_bind_groups[id]
                        == id + 1,
                command_ops(commands@) == command_ops(old(commands)@) + material_ops(
                    base,
                    i as nat,
                ),
            decreases count - i,
        {
            let ghost entered = self@;
            let new_id: usize = self.index_driver.next_id();
            let bind_group: usize = self.index_driver.next_id();
            proof {
                assert(new_id == material_id(base, i as int));
                assert(!entered.material_bind_groups.dom().contains(new_id)) by {
                    if before.material_bind_groups.dom().contains(new_id) {
                        assert(new_id < before.next);
                    }
                }
            }
            self.material_bind_group_registry.insert(new_id, bind_group);
            let ghost issued = commands@;
            commands.push(Command::MaterialBindGroup { bind_group, material: i });
            ids.push(new_id);
            proof {
                assert(self@.instance_buffers =~= before.instance_buffers);
                lemma_command_ops_push(
                    issued,
                    Command::MaterialBindGroup { bind_group, material: i },
                );
                assert(material_ops(base, (i + 1) as nat) =~= material_ops(base, i as nat).push(
                    CommandOp::MaterialBindGroup { bind_group, material: i },
                ));
                assert forall|id: usize| #[trigger]
                    self@.material_bind_groups.dom().contains(id) <==> (
                    before.material_bind_groups.dom().contains(id) || is_material_id(
                        base,
                        (i + 1) as nat,
                        id,
                    )) by {
                    assert(entered.material_bind_groups.dom().contains(id) <==> (
                    before.material_bind_groups.dom().contains(id) || is_material_id(
                        base,
                        i as nat,
                        id,
                    )));
                    assert(self@.material_bind_groups.dom().contains(id) <==> (id == new_id
                        || entered.material_bind_groups.dom().contains(id)));
                }
                assert forall|id: usize| #[trigger]
                    self@.material_bind_groups.dom().contains(id) implies id < self@.next by {
                    if id != new_id {
                        assert(entered.material_bind_groups.dom().contains(id));
                    }
                }
                lemma_wf_grows(entered, self@);
            }
            i = i + 1;
        }
        ids
    }

    /// Registers an index buffer and a vertex buffer for each mesh of `model` and returns
    /// what the drawer keeps of the meshes.
    fn create_mesh_buffers(
        &mut self,
        model: &Model,
        material_ids: &Vec<usize>,
        commands: &mut Vec<Command>,
        Ghost(material_base): Ghost<nat>,
    ) -> (internal_meshes: Vec<InternalMesh>)
        requires
            old(self).wf(),
            model.wf(),
            old(self)@.next + 3 * model.meshes@.len() <= usize::MAX,
            material_ids@.len() == model.materials@.len(),
            forall|k: int|
                0 <= k < material_ids@.len() ==> #[trigger] material_ids@[k] == material_id(
                    material_base,
                    k,
                ) && old(self)@.material_bind_groups.dom().contains(material_ids@[k]),
        ensures
            final(self).wf(),
            final(self)@.next == old(self)@.next + 3 * model.meshes@.len(),
            final(self)@.topology == old(self)@.topology,
            final(self)@.models == old(self)@.models,
            final(self)@.uniform_bind_groups == old(self)@.uniform_bind_groups,
            final(self)@.material_bind_groups == old(self)@.material_bind_groups,
            final(self)@.instance_buffers == old(self)@.instance_buffers,
            internal_meshes@ == Seq::new(
                model.meshes@.len(),
                |i: int| internal_mesh(material_base, old(self)@.next, *model, i),
            ),
            forall|k: int|
                0 <= k < internal_meshes@.len() ==> final(self)@.mesh_ready(
                    #[trigger] internal_meshes@[k],
                ),
            forall|id: usize| #[trigger]
                final(self)@.vertex_buffers.dom().contains(id)
                    <==> (old(self)@.vertex_buffers.dom().contains(id) || is_mesh_id(
                    old(self)@.next,
                    model.meshes@.len(),
                    id,
                )),
            forall|id: usize|
                old(self)@.vertex_buffers.dom().contains(id)
                    ==> #[trigger] final(self)@.vertex_buffers[id] == old(self)@.vertex_buffers[id],
            forall|id: usize|
                is_mesh_id(old(self)@.next, model.meshes@.len(), id)
                    ==> #[trigger] final(self)@.vertex_buffers[id] == id + 2,
            forall|id: usize| #[trigger]
                final(self)@.index_buffers.dom().contains(id)
                    <==> (old(self)@.index_buffers.dom().contains(id) || is_mesh_id(
                    old(self)@.next,
                    model.meshes@.len(),
                    id,
                )),
            forall|id: usize|
                old(self)@.index_buffers.dom().contains(id)
                    ==> #[trigger] final(self)@.index_buffers[id] == old(self)@.index_buffers[id],
            forall|id: usize|
                is_mesh_id(old(self)@.next, model.meshes@.len(), id)
                    ==> #[trigger] final(self)@.index_buffers[id] == id + 1,
            command_ops(final(commands)@).len() == command_ops(old(commands)@).len() + 2
                * model.meshes@.len(),
            command_ops(final(commands)@).take(old(commands)@.len() as int) == command_ops(
                old(commands)@,
            ),
            is_mesh_upload(
                command_ops(final(commands)@).skip(old(commands)@.len() as int),
                old(self)@.next,
                model.meshes@,
            ),
    {
        let ghost before = self@;
        let ghost base = self@.next;
        let ghost count = model.meshes@.len();
        let ghost start = commands@.len() as int;
        let mut internal_meshes: Vec<InternalMesh> = Vec::new();
        let mut i: usize = 0;
        proof {
            assert(command_ops(commands@).take(start) =~= command_ops(old(commands)@));
        }
        while i < model.meshes.len()
            invariant
                self.wf(),
                before.wf(),
                model.wf(),
                base == before.next,
                count == model.meshes@.len(),
                start == old(commands)@.len(),
                base + 3 * count <= usize::MAX,
                i <= count,
                material_ids@.len() == model.materials@.len(),
                forall|k: int|
                    0 <= k < material_ids@.len() ==> #[trigger] material_ids@[k] == material_id(
                        material_base,
                        k,
                    ) && before.material_bind_groups.dom().contains(material_ids@[k]),
                self@.next == base + 3 * i,
                self@.topology == before.topology,
                self@.models == before.models,
                self@.uniform_bind_groups == before.uniform_bind_groups,
                self@.material_bind_groups == before.material_bind_groups,
                self@.instance_buffers == before.instance_buffers,
                internal_meshes@ == Seq::new(
                    i as nat,
                    |j: int| internal_mesh(material_base, base, *model, j),
                ),
                forall|k: int|
                    0 <= k < i ==> self@.mesh_ready(#[trigger] internal_meshes@[k]),
                forall|id: usize| #[trigger]
                    self@.vertex_buffers.dom().contains(id) <==> (
                    before.vertex_buffers.dom().contains(id) || is_mesh_id(base, i as nat, id)),
                forall|id: usize|
                    before.vertex_buffers.dom().contains(id) ==> #[trigger] self@.vertex_buffers[id]
                        == before.vertex_buffers[id],
                forall|id: usize|
                    is_mesh_id(base, i as nat, id) ==> #[trigger] self@.vertex_buffers[id] == id
                        + 2,
                forall|id: usize| #[trigger]
                    self@.index_buffers.dom().contains(id) <==> (
                    before.index_buffers.dom().contains(id) || is_mesh_id(base, i as nat, id)),
                forall|id: usize|
                    before.index_buffers.dom().contains(id) ==> #[trigger] self@.index_buffers[id]
                        == before.index_buffers[id],
                forall|id: usize|
                    is_mesh_id(base, i as nat, id) ==> #[trigger] self@.index_buffers[id] == id + 1,
                commands@.len() == start + 2 * i,
                command_ops(commands@).take(start) == command_ops(old(commands)@),
                is_mesh_upload(command_ops(commands@).skip(start), base,
                    model.meshes@.take(i as int)),
            decreases count - i,
        {
            let ghost entered = self@;
            let ghost issued = commands@;
            let mesh = &model.meshes[i];
            let id: usize = self.index_driver.next_id();
            let index_buffer: usize = self.index_driver.next_id();
            let vertex_buffer: usize = self.index_driver.next_id();
            proof {
                assert(id == mesh_id(base, i as int));
                assert(!entered.index_buffers.dom().contains(id)) by {
                    if before.index_buffers.dom().contains(id) {
                        assert(id < before.next);
                    }
                }
                assert(!entered.vertex_buffers.dom().contains(id)) by {
                    if before.vertex_buffers.dom().contains(id) {
                        assert(id < before.next);
                    }
                }
            }
            self.index_buffer_registry.insert(id, index_buffer);
            self.vertex_buffer_registry.insert(id, vertex_buffer);
            let index_upload = Command::Buffer(
                BufferCommand::CreateInit {
                    buffer: index_buffer,
                    contents: mesh.index_bytes(),
                    usage: BufferUsage {
                        copy_src: false,
                        copy_dst: false,
                        index: true,
                        vertex: false,
                        uniform: false,
                        storage: false,
                    },
                },
            );
            let vertex_upload = Command::Buffer(
                BufferCommand::CreateInit {
                    buffer: vertex_buffer,
                    contents: mesh.vertex_bytes(),
                    usage: BufferUsage {
                        copy_src: false,
                        copy_dst: false,
                        index: false,
                        vertex: true,
                        uniform: false,
                        storage: false,
                    },
                },
            );
            let ghost index_op = index_upload@;
            let ghost vertex_op = vertex_upload@;
            commands.push(index_upload);
            commands.push(vertex_upload);
            let material = if material_ids.len() == 0 {
                None
            } else {
                Some(material_ids[mesh.material_id])
            };
            let internal = InternalMesh { id, count: mesh.indices.len(), material_id: material };
            internal_meshes.push(internal);
            proof {
                assert(self@.instance_buffers =~= before.instance_buffers);
                assert(internal == internal_mesh(material_base, base, *model, i as int));
                assert(internal_meshes@ =~= Seq::new(
                    (i + 1) as nat,
                    |j: int| internal_mesh(material_base, base, *model, j),
                ));
                assert forall|id: usize| #[trigger]
                    self@.vertex_buffers.dom().contains(id) <==> (
                    before.vertex_buffers.dom().contains(id) || is_mesh_id(
                        base,
                        (i + 1) as nat,
                        id,
                    )) by {
                    assert(entered.vertex_buffers.dom().contains(id) <==> (
                    before.vertex_buffers.dom().contains(id) || is_mesh_id(base, i as nat, id)));
                }
                assert forall|id: usize| #[trigger]
                    self@.index_buffers.dom().contains(id) <==> (
                    before.index_buffers.dom().contains(id) || is_mesh_id(
                        base,
                        (i + 1) as nat,
                        id,
                    )) by {
                    assert(entered.index_buffers.dom().contains(id) <==> (
                    before.index_buffers.dom().contains(id) || is_mesh_id(base, i as nat, id)));
                }
                assert forall|id: usize| #[trigger]
                    self@.vertex_buffers.dom().contains(id) implies id < self@.next
                    && self@.vertex_buffers[id] < self@.next by {
                    if id != mesh_id(base, i as int) {
                        assert(entered.vertex_buffers.dom().contains(id));
                    }
                }
                assert forall|id: usize| #[trigger]
                    self@.index_buffers.dom().contains(id) implies id < self@.next
                    && self@.index_buffers[id] < self@.next by {
                    if id != mesh_id(base, i as int) {
                        assert(entered.index_buffers.dom().contains(id));
                    }
                }
                lemma_wf_grows(entered, self@);
                assert forall|k: int| 0 <= k < i + 1 implies self@.mesh_ready(
                    #[trigger] internal_meshes@[k],
                ) by {
                    if k < i {
                        let seen = internal_mesh(material_base, base, *model, k);
                        assert(entered.mesh_ready(seen));
                        assert(entered.vertex_buffers.dom().contains(seen.id));
                        assert(entered.index_buffers.dom().contains(seen.id));
                    } else {
                        if material_ids@.len() > 0 {
                            assert(model.meshes@[i as int].material_id < model.materials@.len());
                            assert(material_ids@[mesh.material_id as int] == material_id(
                                material_base,
                                mesh.material_id as int,
                            ));
                        }
                    }
                }
                lemma_command_ops_push(issued, index_upload);
                lemma_command_ops_push(issued.push(index_upload), vertex_upload);
                let ops = command_ops(commands@);
                assert(ops.take(start) =~= command_ops(issued).take(start));
                let uploads = ops.skip(start);
                let earlier = command_ops(issued).skip(start);
                assert(uploads.len() == 2 * (i + 1));
                assert forall|j: int| 0 <= j < i + 1 implies {
                    &&& is_index_upload(
                        uploads[2 * j],
                        (mesh_id(base, j) + 1) as usize,
                        #[trigger] model.meshes@.take(i + 1)[j],
                    )
                    &&& is_vertex_upload(
                        uploads[2 * j + 1],
                        (mesh_id(base, j) + 2) as usize,
                        model.meshes@.take(i + 1)[j],
                    )
                } by {
                    if j < i {
                        assert(model.meshes@.take(i as int)[j] == model.meshes@[j]);
                        assert(uploads[2 * j] == earlier[2 * j]);
                        assert(uploads[2 * j + 1] == earlier[2 * j + 1]);
                    } else {
                        assert(uploads[2 * j] == index_op);
                        assert(uploads[2 * j + 1] == vertex_op);
                    }
                }
            }
            i = i + 1;
        }
        proof {
            assert(model.meshes@.take(i as int) =~= model.meshes@);
        }
        internal_meshes
    }

    /// Puts `model` on the device: registers its materials and meshes, gives it an empty
    /// instance buffer and a uniform bind group, and draws it last from now on. Returns the
    /// commands that create all of this, in the order in which they must run.
    pub fn init_model(&mut self, model: &Model) -> (commands: Vec<Command>)
        requires
            old(self).wf(),
            old(self)@.can_init(*model),
        ensures
            final(self).wf(),
            old(self)@.initialised(*model, final(self)@),
            is_init_plan(command_ops(commands@), old(self)@.next, *model),
    {
        let ghost before = self@;
        let ghost base = before.next;
        let ghost materials = model.materials@.len();
        let ghost meshes = model.meshes@.len();
        let mut commands: Vec<Command> = Vec::new();
        let material_ids = self.create_material_bind_groups(model, &mut commands);
        let ghost with_materials = self@;
        let ghost material_part = command_ops(commands@);
        proof {
            assert(material_part =~= material_ops(base, materials));
            assert forall|k: int| 0 <= k < material_ids@.len() implies #[trigger] material_ids@[k]
                == material_id(base, k) && self@.material_bind_groups.dom().contains(
                material_ids@[k],
            ) by {
                assert(is_material_id(base, materials, material_id(base, k)));
            }
        }
        let internal_meshes = self.create_mesh_buffers(
            model,
            &material_ids,
            &mut commands,
            Ghost(base),
        );
        let ghost with_meshes = self@;
        let ghost registered = self.instance_buffer_registry@;
        let ghost mesh_part = command_ops(commands@);
        proof {
            assert forall|id: usize| #[trigger] registered.dom().contains(id)
                implies registered[id].wf() by {}
        }
        let (instance_buffer, create) = DynamicBuffer::with_capacity(
            &mut self.index_driver,
            INITIAL_INSTANCES,
            INSTANCE_SIZE,
            BufferUsage {
                copy_src: true,
                copy_dst: true,
                index: false,
                vertex: false,
                uniform: false,
                storage: true,
            },
        );
        let instances: usize = instance_buffer.get_buffer();
        let bind_group: usize = self.index_driver.next_id();
        proof {
            assert(!self.instance_buffer_registry@.dom().contains(model.id)) by {
                assert(!with_meshes.instance_buffers.dom().contains(model.id));
            }
            assert(!self.uniform_bind_group_registry@.dom().contains(model.id)) by {
                assert(!with_meshes.uniform_bind_groups.dom().contains(model.id));
            }
        }
        self.instance_buffer_registry.insert(model.id, instance_buffer);
        self.uniform_bind_group_registry.insert(model.id, bind_group);
        let ghost issued = commands@;
        let create_command = Command::Buffer(create);
        let bind_command = Command::UniformBindGroup { bind_group, instances };
        commands.push(create_command);
        commands.push(bind_command);
        let internal = InternalModel { id: model.id, num_of_instances: 0, internal_meshes };
        self.models.push(internal);
        proof {
            let after = self@;
            assert(after.models.drop_last() =~= before.models);
            assert(after.instance_buffers =~= before.instance_buffers.insert(
                model.id,
                new_instance_buffer(instances),
            ));
            assert(after.models.last().internal_meshes@ =~= Seq::new(
                meshes,
                |i: int| internal_mesh(base, base + 2 * materials, *model, i),
            ));
            assert(after.uniform_bind_groups =~= before.uniform_bind_groups.insert(
                model.id,
                (instances + 1) as usize,
            ));
            assert forall|id: usize| #[trigger]
                after.material_bind_groups.dom().contains(id) <==> (
                before.material_bind_groups.dom().contains(id) || is_material_id(
                    base,
                    materials,
                    id,
                )) by {
                assert(with_materials.material_bind_groups.dom().contains(id) <==> (
                before.material_bind_groups.dom().contains(id) || is_material_id(
                    base,
                    materials,
                    id,
                )));
            }
            assert forall|id: usize| #[trigger]
                after.vertex_buffers.dom().contains(id) <==> (before.vertex_buffers.dom().contains(
                    id,
                ) || is_mesh_id(base + 2 * materials, meshes, id)) by {
                assert(with_meshes.vertex_buffers.dom().contains(id) <==> (
                with_materials.vertex_buffers.dom().contains(id) || is_mesh_id(
                    base + 2 * materials,
                    meshes,
                    id,
                )));
            }
            assert forall|id: usize| #[trigger]
                after.index_buffers.dom().contains(id) <==> (before.index_buffers.dom().contains(
                    id,
                ) || is_mesh_id(base + 2 * materials, meshes, id)) by {
                assert(with_meshes.index_buffers.dom().contains(id) <==> (
                with_materials.index_buffers.dom().contains(id) || is_mesh_id(
                    base + 2 * materials,
                    meshes,
                    id,
                )));
            }
            assert(after.vertex_buffers == with_meshes.vertex_buffers);
            assert(after.index_buffers == with_meshes.index_buffers);
            assert(with_materials.vertex_buffers == before.vertex_buffers);
            assert(with_materials.index_buffers == before.index_buffers);
            assert(with_materials.next == base + 2 * materials);
            assert forall|id: usize|
                before.vertex_buffers.dom().contains(id) implies #[trigger] after.vertex_buffers[id]
                == before.vertex_buffers[id] by {
                assert(with_meshes.vertex_buffers[id] == with_materials.vertex_buffers[id]);
            }
            assert forall|id: usize|
                is_mesh_id(base + 2 * materials, meshes, id)
                    implies #[trigger] after.vertex_buffers[id]
                == id + 2 by {
                assert(with_meshes.vertex_buffers[id] == id + 2);
            }
            assert forall|id: usize|
                before.index_buffers.dom().contains(id) implies #[trigger] after.index_buffers[id]
                == before.index_buffers[id] by {
                assert(with_meshes.index_buffers[id] == with_materials.index_buffers[id]);
            }
            assert forall|id: usize|
                is_mesh_id(base + 2 * materials, meshes, id)
                    implies #[trigger] after.index_buffers[id]
                == id + 1 by {
                assert(with_meshes.index_buffers[id] == id + 1);
            }
            assert(before.initialised(*model, after));
            // the invariant
            assert forall|i: int, j: int| 0 <= i < j < after.models.len() implies (
            #[trigger] after.models[i]).id != (#[trigger] after.models[j]).id by {
                if j == after.models.len() - 1 {
                    assert(before.models[i].id == after.models[i].id);
                    assert(!before.instance_buffers.dom().contains(model.id));
                } else {
                    assert(before.models[i].id != before.models[j].id);
                }
            }
            assert forall|id: usize| #[trigger]
                after.instance_buffers.dom().contains(id) <==> exists|i: int|
                    0 <= i < after.models.len() && (#[trigger] after.models[i]).id == id by {
                if after.instance_buffers.dom().contains(id) {
                    if id == model.id {
                        assert(after.models[after.models.len() - 1].id == id);
                    } else {
                        assert(before.instance_buffers.dom().contains(id));
                        let i = choose|i: int|
                            0 <= i < before.models.len() && (#[trigger] before.models[i]).id == id;
                        assert(after.models[i].id == id);
                    }
                }
                if exists|i: int| 0 <= i < after.models.len()
                    && (#[trigger] after.models[i]).id == id {
                    let i = choose|i: int|
                        0 <= i < after.models.len() && (#[trigger] after.models[i]).id == id;
                    if i < before.models.len() {
                        assert(before.models[i].id == id);
                        assert(before.instance_buffers.dom().contains(id));
                    }
                }
            }
            assert forall|id: usize|
                after.instance_buffers.dom().contains(id)
                    <==> #[trigger] after.uniform_bind_groups.dom().contains(id) by {
                assert(before.instance_buffers.dom().contains(id)
                    <==> before.uniform_bind_groups.dom().contains(id));
            }
            assert forall|i: int| 0 <= i < after.models.len() implies {
                let entry = #[trigger] after.models[i];
                let buffer = after.instance_buffers[entry.id];
                &&& buffer.wf()
                &&& buffer.record_size == INSTANCE_SIZE
                &&& buffer.len == entry.num_of_instances
                &&& buffer.capacity * buffer.record_size <= usize::MAX
                &&& buffer.buffer < after.next
            } by {
                if i < before.models.len() {
                    let entry = before.models[i];
                    assert(before.instance_buffers.dom().contains(entry.id));
                    assert(before.instance_buffers[entry.id].buffer < before.next);
                }
            }
            assert forall|a: usize, b: usize|
                after.instance_buffers.dom().contains(a) && after.instance_buffers.dom().contains(b)
                    && a != b implies (#[trigger] after.instance_buffers[a]).buffer != (
            #[trigger] after.instance_buffers[b]).buffer by {
                if a != model.id {
                    let i = choose|i: int|
                        0 <= i < before.models.len() && (#[trigger] before.models[i]).id == a;
                    assert(before.instance_buffers[before.models[i].id].buffer < before.next);
                }
                if b != model.id {
                    let i = choose|i: int|
                        0 <= i < before.models.len() && (#[trigger] before.models[i]).id == b;
                    assert(before.instance_buffers[before.models[i].id].buffer < before.next);
                }
            }
            assert forall|i: int, k: int|
                0 <= i < after.models.len() && 0 <= k < after.models[i].internal_meshes@.len()
                implies after.mesh_ready(#[trigger] after.models[i].internal_meshes@[k]) by {
                if i < before.models.len() {
                    assert(with_meshes.mesh_ready(with_meshes.models[i].internal_meshes@[k]));
                } else {
                    assert(with_meshes.mesh_ready(internal_meshes@[k]));
                }
            }
            assert(after.wf());
            assert forall|id: usize| #[trigger]
                self.instance_buffer_registry@.dom().contains(id)
                implies self.instance_buffer_registry@[id].wf() by {
                if id != model.id {
                    assert(registered.dom().contains(id));
                }
            }
            // the plan
            lemma_command_ops_push(issued, create_command);
            lemma_command_ops_push(issued.push(create_command), bind_command);
            let ops = command_ops(commands@);
            assert(ops.take(materials as int) =~= material_ops(base, materials)) by {
                assert(mesh_part.take(materials as int) == material_part);
                assert forall|j: int| 0 <= j < materials implies ops[j] == material_part[j] by {
                    assert(mesh_part.take(materials as int)[j] == mesh_part[j]);
                }
            }
            assert(ops.subrange(materials as int, materials + 2 * meshes as int)
                =~= mesh_part.skip(materials as int));
        }
        commands
    }

    fn find(&self, model_id: usize) -> (place: usize)
        requires
            self.wf(),
            self@.knows(model_id),
        ensures
            place < self@.models.len(),
            self@.models[place as int].id == model_id,
            place == self@.place_of(model_id),
    {
        let mut i: usize = 0;
        while i < self.models.len()
            invariant
                self.wf(),
                self@.knows(model_id),
                i <= self.models@.len(),
                forall|j: int| 0 <= j < i ==> (#[trigger] self.models@[j]).id != model_id,
            decreases self.models@.len() - i,
        {
            if self.models[i].id == model_id {
                proof {
                    let chosen = self@.place_of(model_id);
                    assert(self@.models[i as int].id == model_id);
                    if chosen < i {
                        assert(self@.models[chosen].id != self@.models[i as int].id);
                    } else if i < chosen {
                        assert(self@.models[i as int].id != self@.models[chosen].id);
                    }
                }
                return i;
            }
            i = i + 1;
        }
        proof {
            let j = choose|j: int|
                0 <= j < self@.models.len() && (#[trigger] self@.models[j]).id == model_id;
            assert(self.models@[j].id != model_id);
        }
        0
    }

    /// Adds one instance of the model `model_id` for each of `transforms`, behind the
    /// instances that the model has. Returns the commands that append the records to the
    /// model's instance buffer, which may move to a larger allocation, and that bind the
    /// buffer in a new uniform bind group.
    pub fn add_instances(&mut self, model_id: usize, transforms: &Vec<RawTransform>) -> (commands:
        Vec<Command>)
        requires
            old(self).wf(),
            old(self)@.can_add(model_id, transforms@.len()),
        ensures
            final(self).wf(),
            old(self)@.instances_added(model_id, transforms@.len(), final(self)@),
            is_add_plan(
                command_ops(commands@),
                old(self)@.instance_buffers[model_id],
                old(self)@.next as usize,
                transform_words(transforms@),
            ),
    {
        let ghost before = self@;
        let ghost registered = self.instance_buffer_registry@;
        let ghost count = transforms@.len();
        let ghost fresh = before.next as usize;
        let data = raw_transform_bytes(transforms);
        let place = self.find(model_id);
        let mut buffer: DynamicBuffer = *self.instance_buffer_registry.get(model_id);
        let ghost state = buffer@;
        proof {
            assert(state == before.instance_buffers[model_id]);
            assert(before.instance_buffers[before.models[place as int].id].wf());
            crate::scene::lemma_transform_words_len(transforms@);
            assert(data@.len() / 64 == count);
        }
        let mut buffer_commands = buffer.append(&mut self.index_driver, &data);
        let ghost buffer_ops = state.append_ops(data@, fresh);
        self.instance_buffer_registry.replace(model_id, buffer);
        let bind_group: usize = self.index_driver.next_id();
        proof {
            assert(before.uniform_bind_groups.dom().contains(model_id));
        }
        self.uniform_bind_group_registry.replace(model_id, bind_group);
        let mut commands: Vec<Command> = Vec::new();
        let ghost total = buffer_commands@.len();
        proof {
            assert(command_ops(commands@) =~= as_commands(buffer_ops.take(0)));
        }
        while buffer_commands.len() > 0
            invariant
                buffer_commands@.len() <= total,
                total == buffer_ops.len(),
                crate::gpu::buffer_ops(buffer_commands@) == buffer_ops.skip(
                    total - buffer_commands@.len(),
                ),
                command_ops(commands@) == as_commands(
                    buffer_ops.take(total - buffer_commands@.len()),
                ),
            decreases buffer_commands@.len(),
        {
            let ghost remaining = buffer_commands@;
            let ghost issued = commands@;
            let ghost done = total - remaining.len();
            let command = buffer_commands.remove(0);
            let wrapped = Command::Buffer(command);
            commands.push(wrapped);
            proof {
                assert(command@ == crate::gpu::buffer_ops(remaining)[0]);
                assert(command@ == buffer_ops[done]);
                lemma_command_ops_push(issued, wrapped);
                assert(command_ops(commands@) =~= as_commands(buffer_ops.take(done + 1)));
                assert forall|j: int| 0 <= j < buffer_commands@.len()
                    implies crate::gpu::buffer_ops(
                    buffer_commands@,
                )[j] == buffer_ops.skip(done + 1)[j] by {
                    assert(buffer_commands@[j] == remaining[j + 1]);
                    assert(crate::gpu::buffer_ops(remaining)[j + 1]
                        == buffer_ops.skip(done)[j + 1]);
                }
                assert(crate::gpu::buffer_ops(buffer_commands@) =~= buffer_ops.skip(done + 1));
            }
        }
        let ghost issued = commands@;
        let bind = Command::UniformBindGroup { bind_group, instances: buffer.get_buffer() };
        commands.push(bind);
        let instances: usize = self.models[place].num_of_instances;
        proof {
            assert(before.instance_buffers[before.models[place as int].id].len == instances);
            assert(state.appended(count, fresh).wf()) by {
                crate::buffer::lemma_appended_wf(state, count, fresh);
            }
        }
        self.models[place].num_of_instances = instances + transforms.len();
        proof {
            let after = self@;
            lemma_command_ops_push(issued, bind);
            assert(buffer_ops.take(total as int) =~= buffer_ops);
            assert(is_memory_of(data@, transform_words(transforms@)));
            assert(after.instance_buffers =~= before.instance_buffers.insert(
                model_id,
                state.appended(count, fresh),
            ));
            assert(before.instances_added(model_id, count, after));
            assert forall|i: int, j: int| 0 <= i < j < after.models.len() implies (
            #[trigger] after.models[i]).id != (#[trigger] after.models[j]).id by {
                assert(before.models[i].id != before.models[j].id);
            }
            assert forall|id: usize| #[trigger]
                after.instance_buffers.dom().contains(id) <==> exists|i: int|
                    0 <= i < after.models.len() && (#[trigger] after.models[i]).id == id by {
                if after.instance_buffers.dom().contains(id) {
                    assert(before.instance_buffers.dom().contains(id));
                    let i = choose|i: int|
                        0 <= i < before.models.len() && (#[trigger] before.models[i]).id == id;
                    assert(after.models[i].id == id);
                }
                if exists|i: int| 0 <= i < after.models.len()
                    && (#[trigger] after.models[i]).id == id {
                    let i = choose|i: int|
                        0 <= i < after.models.len() && (#[trigger] after.models[i]).id == id;
                    assert(before.models[i].id == id);
                    assert(before.instance_buffers.dom().contains(id));
                }
            }
            assert forall|id: usize|
                after.instance_buffers.dom().contains(id)
                    <==> #[trigger] after.uniform_bind_groups.dom().contains(id) by {
                assert(before.instance_buffers.dom().contains(id)
                    <==> before.uniform_bind_groups.dom().contains(id));
            }
            assert forall|i: int| 0 <= i < after.models.len() implies {
                let entry = #[trigger] after.models[i];
                let held = after.instance_buffers[entry.id];
                &&& held.wf()
                &&& held.record_size == INSTANCE_SIZE
                &&& held.len == entry.num_of_instances
                &&& held.capacity * held.record_size <= usize::MAX
                &&& held.buffer < after.next
            } by {
                let entry = before.models[i];
                assert(before.instance_buffers[entry.id].buffer < before.next);
                if entry.id == model_id {
                    assert(i == place) by {
                        if i < place {
                            assert(before.models[i].id != before.models[place as int].id);
                        } else if place < i {
                            assert(before.models[place as int].id != before.models[i].id);
                        }
                    }
                    buffer.lemma_wf_bounds();
                }
            }
            assert forall|a: usize, b: usize|
                after.instance_buffers.dom().contains(a) && after.instance_buffers.dom().contains(b)
                    && a != b implies (#[trigger] after.instance_buffers[a]).buffer != (
            #[trigger] after.instance_buffers[b]).buffer by {
                let i = choose|i: int|
                    0 <= i < before.models.len() && (#[trigger] before.models[i]).id == a;
                assert(before.instance_buffers[before.models[i].id].buffer < before.next);
                let j = choose|j: int|
                    0 <= j < before.models.len() && (#[trigger] before.models[j]).id == b;
                assert(before.instance_buffers[before.models[j].id].buffer < before.next);
                assert(before.instance_buffers[a].buffer != before.instance_buffers[b].buffer);
            }
            assert forall|i: int, k: int|
                0 <= i < after.models.len() && 0 <= k < after.models[i].internal_meshes@.len()
                implies after.mesh_ready(#[trigger] after.models[i].internal_meshes@[k]) by {
                assert(before.mesh_ready(before.models[i].internal_meshes@[k]));
            }
            assert(after.wf());
            assert forall|id: usize| #[trigger]
                self.instance_buffer_registry@.dom().contains(id)
                implies self.instance_buffer_registry@[id].wf() by {
                if id != model_id {
                    assert(registered.dom().contains(id));
                }
            }
        }
        commands
    }

    /// The command that replaces the record of `object` in the instance buffer of its model
    /// by `transform`, and touches no other record.
    pub fn update_object(&self, object: &Object, transform: &RawTransform) -> (command: Command)
        requires
            self.wf(),
            self@.knows(object.model_id),
            object.instance_id < self@.instance_buffers[object.model_id].len,
        ensures
            is_update_plan(
                command@,
                self@.instance_buffers[object.model_id],
                object.instance_id as nat,
                transform.transform@,
            ),
    {
        let mut transforms: Vec<RawTransform> = Vec::new();
        transforms.push(*transform);
        let data = raw_transform_bytes(&transforms);
        let place = self.find(object.model_id);
        let buffer = self.instance_buffer_registry.get(object.model_id);
        proof {
            assert(transforms@.drop_last() =~= Seq::<RawTransform>::empty());
            assert(transform_words(transforms@) =~= transform.transform@) by {
                assert(transform_words(transforms@.drop_last()) =~= Seq::<u32>::empty());
            }
            assert(buffer@ == self@.instance_buffers[self@.models[place as int].id]);
        }
        Command::Buffer(buffer.overwrite_at(object.instance_id, &data))
    }

    fn draw_mesh_instanced(
        &self,
        commands: &mut Vec<DrawCommand>,
        model: &InternalModel,
        mesh: &InternalMesh,
    )
        requires
            self@.mesh_ready(*mesh),
            self@.uniform_bind_groups.dom().contains(model.id),
        ensures
            final(commands)@ == old(commands)@ + self@.mesh_plan(*model, *mesh),
    {
        let vertex_buffer: usize = *self.vertex_buffer_registry.get(mesh.id);
        let index_buffer: usize = *self.index_buffer_registry.get(mesh.id);
        let uniform_bind_group: usize = *self.uniform_bind_group_registry.get(model.id);
        commands.push(DrawCommand::SetVertexBuffer { slot: 0, buffer: vertex_buffer });
        commands.push(DrawCommand::SetIndexBuffer { buffer: index_buffer });
        commands.push(
            DrawCommand::SetBindGroup { slot: 0,
                bind_group: BindGroup::Created(uniform_bind_group) },
        );
        if let Some(material) = mesh.material_id {
            let material_bind_group: usize = *self.material_bind_group_registry.get(material);
            commands.push(
                DrawCommand::SetBindGroup {
                    slot: 1,
                    bind_group: BindGroup::Created(material_bind_group),
                },
            );
        }
        commands.push(DrawCommand::SetBindGroup { slot: 2, bind_group: BindGroup::Light });
        commands.push(
            DrawCommand::DrawIndexed {
                indices: #[verifier::truncate]
                (mesh.count as u32),
                instances: #[verifier::truncate]
                (model.num_of_instances as u32),
            },
        );
        proof {
            assert(commands@ =~= old(commands)@ + self@.mesh_plan(*model, *mesh));
        }
    }

    fn draw_model_instanced(&self, commands: &mut Vec<DrawCommand>, place: usize)
        requires
            self.wf(),
            place < self@.models.len(),
        ensures
            final(commands)@ == old(commands)@ + self@.model_plan(
                self@.models[place as int],
                self@.models[place as int].internal_meshes@.len(),
            ),
    {
        let model = &self.models[place];
        let mut k: usize = 0;
        proof {
            assert(commands@ =~= old(commands)@ + self@.model_plan(*model, 0));
            assert(self@.instance_buffers.dom().contains(model.id));
        }
        while k < model.internal_meshes.len()
            invariant
                self.wf(),
                place < self@.models.len(),
                *model == self@.models[place as int],
                self@.uniform_bind_groups.dom().contains(model.id),
                k <= model.internal_meshes@.len(),
                commands@ == old(commands)@ + self@.model_plan(*model, k as nat),
            decreases model.internal_meshes@.len() - k,
        {
            let mesh = &model.internal_meshes[k];
            let ghost before = commands@;
            self.draw_mesh_instanced(commands, model, mesh);
            proof {
                assert(commands@ =~= old(commands)@ + self@.model_plan(*model, (k + 1) as nat));
            }
            k = k + 1;
        }
    }
}

impl Drawer for ModelDrawer {
    open spec fn draw_plan(&self) -> Seq<DrawCommand> {
        self@.draw_plan()
    }

    open spec fn ready(&self) -> bool {
        self.wf()
    }

    fn draw(&self) -> (commands: Vec<DrawCommand>) {
        let mut commands: Vec<DrawCommand> = Vec::new();
        commands.push(DrawCommand::SetPipeline);
        let mut i: usize = 0;
        proof {
            assert(commands@ =~= self@.models_plan(0));
        }
        while i < self.models.len()
            invariant
                self.wf(),
                i <= self@.models.len(),
                self@.models == self.models@,
                commands@ == self@.models_plan(i as nat),
            decreases self@.models.len() - i,
        {
            self.draw_model_instanced(&mut commands, i);
            i = i + 1;
        }
        commands
    }
}

} // verus!
