use crate::bytes::{is_memory_of, words_to_bytes};
use crate::gpu::{
    command_ops, BindGroup, BufferCommand, BufferOp, BufferUsage, Command, CommandOp,
    DrawCommand,
};
use crate::index::IndexDriver;
use crate::model::vertex_words;
use crate::primitives::get_mesh;
use crate::registry::ResourceRegistry;
use crate::renderer::render::Drawer;
use crate::scene::Object;
use vstd::prelude::*;

verus! {

/// The handle of the vertex buffer of the sphere's mesh.
pub const SPHERE_VERTICES: usize = 0;

/// The handle of the index buffer of the sphere's mesh.
pub const SPHERE_INDICES: usize = 1;

/// The number of indices of the sphere's mesh.
pub const SPHERE_INDEX_COUNT: u32 = 18;

/// Whether `radius` is the greatest of `lengths`, the lengths of the position vectors of a
/// model's vertices, mesh by mesh. Lengths are compared by their bit patterns, which order
/// numbers that are not negative as the numbers themselves.
pub open spec fn is_greatest(radius: u32, lengths: Seq<Vec<u32>>) -> bool {
    &&& exists|m: int, v: int|
        0 <= m < lengths.len() && 0 <= v < lengths[m]@.len() && #[trigger] lengths[m]@[v] == radius
    &&& forall|m: int, v: int|
        0 <= m < lengths.len() && 0 <= v < lengths[m]@.len() ==> #[trigger] lengths[m]@[v]
            <= radius
}

/// Whether a model has any vertex, given the `lengths` of its vertices mesh by mesh.
pub open spec fn has_vertex(lengths: Seq<Vec<u32>>) -> bool {
    exists|m: int| 0 <= m < lengths.len() && (#[trigger] lengths[m])@.len() > 0
}

/// The radius of the sphere round the origin that bounds a model: the greatest distance of
/// any vertex of any mesh from the origin. A model without vertices has none.
pub fn calc_bounding_sphere_radius(lengths: &Vec<Vec<u32>>) -> (radius: Option<u32>)
    ensures
        match radius {
            Some(r) => is_greatest(r, lengths@),
            None => !has_vertex(lengths@),
        },
{
    let mut greatest: Option<u32> = None;
    let mut m: usize = 0;
    while m < lengths.len()
        invariant
            m <= lengths@.len(),
            match greatest {
                Some(r) => is_greatest(r, lengths@.take(m as int)),
                None => !has_vertex(lengths@.take(m as int)),
            },
        decreases lengths@.len() - m,
    {
        let mesh = &lengths[m];
        let ghost seen = lengths@.take(m as int);
        let mut v: usize = 0;
        while v < mesh.len()
            invariant
                m < lengths@.len(),
                *mesh == lengths@[m as int],
                seen == lengths@.take(m as int),
                v <= mesh@.len(),
                match greatest {
                    Some(r) => {
                        &&& (exists|a: int, b: int|
                            0 <= a < seen.len() && 0 <= b < seen[a]@.len() && #[trigger] seen[a]@[b]
                                == r) || (exists|b: int| 0 <= b < v && #[trigger] mesh@[b] == r)
                        &&& forall|a: int, b: int|
                            0 <= a < seen.len() && 0 <= b < seen[a]@.len()
                                ==> #[trigger] seen[a]@[b]
                                <= r
                        &&& forall|b: int| 0 <= b < v ==> #[trigger] mesh@[b] <= r
                    },
                    None => !has_vertex(seen) && v == 0,
                },
            decreases mesh@.len() - v,
        {
            let length: u32 = mesh[v];
            match greatest {
                Some(r) => {
                    if length > r {
                        greatest = Some(length);
                    }
                },
                None => {
                    greatest = Some(length);
                    proof {
                        assert forall|a: int, b: int|
                            0 <= a < seen.len() && 0 <= b < seen[a]@.len()
                                implies #[trigger] seen[a]@[b]
                            <= length by {
                            assert(seen[a]@.len() > 0);
                        }
                    }
                },
            }
            v = v + 1;
        }
        proof {
            let upto = lengths@.take(m + 1);
            assert(upto.drop_last() =~= seen);
            assert(upto.last() == *mesh);
            match greatest {
                Some(r) => {
                    assert forall|a: int, b: int|
                        0 <= a < upto.len() && 0 <= b < upto[a]@.len()
                            implies #[trigger] upto[a]@[b]
                        <= r by {
                        if a < m {
                            assert(upto[a] == seen[a]);
                            assert(seen[a]@[b] <= r);
                        } else {
                            assert(mesh@[b] <= r);
                        }
                    }
                    if exists|a: int, b: int|
                        0 <= a < seen.len() && 0 <= b < seen[a]@.len()
                            && #[trigger] seen[a]@[b] == r {
                        let (a, b) = choose|a: int, b: int|
                            0 <= a < seen.len() && 0 <= b < seen[a]@.len() && #[trigger] seen[a]@[b]
                                == r;
                        assert(upto[a]@[b] == r);
                    } else {
                        let b = choose|b: int| 0 <= b < v && #[trigger] mesh@[b] == r;
                        assert(upto[m as int]@[b] == r);
                    }
                },
                None => {
                    assert(mesh@.len() == 0);
                    assert forall|a: int| 0 <= a < upto.len() implies (#[trigger] upto[a])@.len()
                        == 0 by {
                        if a < m {
                            assert(seen[a]@.len() == 0) by {
                                if seen[a]@.len() > 0 {
                                    assert(has_vertex(seen));
                                }
                            }
                        }
                    }
                },
            }
        }
        m = m + 1;
    }
    proof {
        assert(lengths@.take(m as int) =~= lengths@);
    }
    greatest
}

/// The words of the records of the spheres round `instances`: for each instance its
/// position, which is the sphere's centre, and the `radius`.
pub open spec fn sphere_words(instances: Seq<&Object>, radius: u32) -> Seq<u32>
    decreases instances.len(),
{
    if instances.len() == 0 {
        Seq::<u32>::empty()
    } else {
        sphere_words(instances.drop_last(), radius) + instances.last().transform.position@.push(
            radius,
        )
    }
}

/// What a drawer of bounding spheres holds, as mathematical values.
pub struct BoundingSpheresView {
    /// The next handle that the drawer hands out.
    pub next: nat,
    /// The models with spheres, in the order in which they were added.
    pub model_ids: Seq<usize>,
    /// The number of spheres of each model.
    pub num_instances: Map<usize, usize>,
    /// The buffer of sphere records of each model.
    pub instance_buffers: Map<usize, usize>,
    /// The uniform bind group of each model.
    pub uniform_bind_groups: Map<usize, usize>,
}

impl BoundingSpheresView {
    /// What a new drawer holds: the two buffers of the sphere's mesh under the first two
    /// handles, and no spheres.
    pub open spec fn empty() -> BoundingSpheresView {
        BoundingSpheresView {
            next: 2,
            model_ids: Seq::empty(),
            num_instances: Map::empty(),
            instance_buffers: Map::empty(),
            uniform_bind_groups: Map::empty(),
        }
    }

    /// Whether spheres were added for the model `model_id`.
    pub open spec fn knows(self, model_id: usize) -> bool {
        self.num_instances.dom().contains(model_id)
    }

    /// The invariant of the drawer: each model was added once and has a number of spheres,
    /// a buffer and a bind group.
    pub open spec fn wf(self) -> bool {
        &&& self.next >= 2
        &&& self.model_ids.no_duplicates()
        &&& forall|id: usize| self.model_ids.contains(id)
            <==> #[trigger] self.num_instances.dom().contains(id)
        &&& forall|id: usize| self.model_ids.contains(id)
            <==> #[trigger] self.instance_buffers.dom().contains(id)
        &&& forall|id: usize| self.model_ids.contains(id)
            <==> #[trigger] self.uniform_bind_groups.dom().contains(id)
    }

    /// The calls that draw the spheres of the model `model_id`: one indexed draw of the
    /// sphere's mesh for all of them.
    pub open spec fn model_plan(self, model_id: usize) -> Seq<DrawCommand> {
        seq![
            DrawCommand::SetVertexBuffer { slot: 0, buffer: SPHERE_VERTICES },
            DrawCommand::SetIndexBuffer { buffer: SPHERE_INDICES },
            DrawCommand::SetBindGroup {
                slot: 0,
                bind_group: BindGroup::Created(self.uniform_bind_groups[model_id]),
            },
            DrawCommand::DrawIndexed {
                indices: SPHERE_INDEX_COUNT,
                instances: self.num_instances[model_id] as u32,
            },
        ]
    }

    /// The calls that bind the pipeline and draw the spheres of the first `models` models.
    pub open spec fn models_plan(self, models: nat) -> Seq<DrawCommand>
        decreases models,
    {
        if models == 0 {
            seq![DrawCommand::SetPipeline]
        } else {
            self.models_plan((models - 1) as nat) + self.model_plan(self.model_ids[models - 1])
        }
    }

    /// The calls of one frame.
    pub open spec fn draw_plan(self) -> Seq<DrawCommand> {
        self.models_plan(self.model_ids.len())
    }

    /// This drawer with the spheres of one more model.
    pub open spec fn added(self, model_id: usize, count: usize) -> BoundingSpheresView {
        BoundingSpheresView {
            next: self.next + 2,
            model_ids: self.model_ids.push(model_id),
            num_instances: self.num_instances.insert(model_id, count),
            instance_buffers: self.instance_buffers.insert(model_id, self.next as usize),
            uniform_bind_groups: self.uniform_bind_groups.insert(model_id,
                (self.next + 1) as usize),
        }
    }
}

/// Whether `ops` create the two buffers of the sphere's mesh.
pub open spec fn is_sphere_setup(ops: Seq<CommandOp>) -> bool {
    &&& ops.len() == 2
    &&& match ops[0] {
        CommandOp::Buffer(BufferOp::CreateInit { buffer, contents, usage }) => {
            &&& buffer == SPHERE_VERTICES
            &&& usage == BufferUsage::vertex_writable()
            &&& exists|vertices: Seq<crate::model::ModelVertex>|
                #![trigger vertex_words(vertices)]
                vertices.len() == 12 && (forall|i: int|
                    0 <= i < 12 ==> crate::primitives::is_corner(
                        #[trigger] vertices[i],
                        crate::primitives::corner_signs()[i],
                    )) && is_memory_of(contents, vertex_words(vertices))
        },
        _ => false,
    }
    &&& match ops[1] {
        CommandOp::Buffer(BufferOp::CreateInit { buffer, contents, usage }) => {
            &&& buffer == SPHERE_INDICES
            &&& usage == BufferUsage::index_only()
            &&& is_memory_of(contents, crate::primitives::corner_indices())
        },
        _ => false,
    }
}

/// Whether `ops` create the buffer of the sphere records of `instances` under the handle
/// `buffer`, and the bind group over it under the next handle.
pub open spec fn is_sphere_plan(ops: Seq<CommandOp>, buffer: usize, instances: Seq<&Object>,
    radius: u32) -> bool {
    &&& ops.len() == 2
    &&& match ops[0] {
        CommandOp::Buffer(BufferOp::CreateInit { buffer: created, contents, usage }) => {
            &&& created == buffer
            &&& usage == BufferUsage::storage_only()
            &&& is_memory_of(contents, sphere_words(instances, radius))
        },
        _ => false,
    }
    &&& ops[1] == (CommandOp::UniformBindGroup {
        bind_group: (buffer + 1) as usize,
        instances: buffer,
    })
}

/// Draws a sphere round every instance of every model that it was given: one mesh for all,
/// placed and sized by a record of centre and radius for each instance.
pub struct BoundingSpheresDrawer {
    index_driver: IndexDriver,
    model_ids: Vec<usize>,
    num_instances: ResourceRegistry<usize>,
    instance_buffer_registry: ResourceRegistry<usize>,
    uniform_bind_group_registry: ResourceRegistry<usize>,
}

impl View for BoundingSpheresDrawer {
    type V = BoundingSpheresView;

    closed spec fn view(&self) -> BoundingSpheresView {
        BoundingSpheresView {
            next: self.index_driver.next(),
            model_ids: self.model_ids@,
            num_instances: self.num_instances@,
            instance_buffers: self.instance_buffer_registry@,
            uniform_bind_groups: self.uniform_bind_group_registry@,
        }
    }
}

impl BoundingSpheresDrawer {
    /// A drawer without spheres, and the commands that create the buffers of the sphere's
    /// mesh.
    pub fn new() -> (created: (BoundingSpheresDrawer, Vec<Command>))
        ensures
            created.0@.wf(),
            created.0@ == BoundingSpheresView::empty(),
            is_sphere_setup(command_ops(created.1@)),
    {
        let mesh = get_mesh();
        let mut index_driver = IndexDriver::new();
        let vertex_buffer: usize = index_driver.next_id();
        let index_buffer: usize = index_driver.next_id();
        let mut commands: Vec<Command> = Vec::new();
        commands.push(
            Command::Buffer(
                BufferCommand::CreateInit {
                    buffer: vertex_buffer,
                    contents: mesh.vertex_bytes(),
                    usage: BufferUsage {
                        copy_src: false,
                        copy_dst: true,
                        index: false,
                        vertex: true,
                        uniform: false,
                        storage: false,
                    },
                },
            ),
        );
        commands.push(
            Command::Buffer(
                BufferCommand::CreateInit {
                    buffer: index_buffer,
                    contents: mesh.index_bytes(),
                    usage: BufferUsage {
                        copy_src: false,
                        copy_dst: false,
                        index: true,
                        vertex: false,
                        uniform: false,
                        storage: false,
                    },
                },
            ),
        );
        let drawer = BoundingSpheresDrawer {
            index_driver,
            model_ids: Vec::new(),
            num_instances: ResourceRegistry::new(),
            instance_buffer_registry: ResourceRegistry::new(),
            uniform_bind_group_registry: ResourceRegistry::new(),
        };
        proof {
            assert(is_memory_of(
                match command_ops(commands@)[0] {
                    CommandOp::Buffer(BufferOp::CreateInit { contents, .. }) => contents,
                    _ => Seq::empty(),
                },
                vertex_words(mesh.vertices@),
            ));
        }
        (drawer, commands)
    }

    /// The next handle that the drawer hands out.
    pub fn next_handle(&self) -> (next: usize)
        ensures
            next == self@.next,
    {
        self.index_driver.peek()
    }

    /// Whether spheres were added for the model `model_id`.
    pub fn knows(&self, model_id: usize) -> (known: bool)
        ensures
            known == self@.knows(model_id),
    {
        self.num_instances.contains(model_id)
    }

    /// Adds a sphere of the radius `radius` round each of `instances`, the instances of the
    /// model `model_id`, which must be new to the drawer.
    pub fn add(&mut self, model_id: usize, instances: &Vec<&Object>, radius: u32) -> (commands:
        Vec<Command>)
        requires
            old(self)@.wf(),
            !old(self)@.knows(model_id),
            old(self)@.next + 2 <= usize::MAX,
        ensures
            final(self)@.wf(),
            final(self)@ == old(self)@.added(model_id, instances@.len() as usize),
            is_sphere_plan(command_ops(commands@), old(self)@.next as usize, instances@, radius),
    {
        let ghost before = self@;
        let mut words: Vec<u32> = Vec::new();
        let mut i: usize = 0;
        while i < instances.len()
            invariant
                i <= instances@.len(),
                words@ == sphere_words(instances@.take(i as int), radius),
            decreases instances@.len() - i,
        {
            let center = instances[i].transform.position;
            let ghost held = words@;
            words.push(center[0]);
            words.push(center[1]);
            words.push(center[2]);
            words.push(radius);
            proof {
                assert(words@ =~= held + center@.push(radius));
                assert(instances@.take(i + 1).drop_last() =~= instances@.take(i as int));
                assert(instances@.take(i + 1).last() == instances@[i as int]);
            }
            i = i + 1;
        }
        proof {
            assert(instances@.take(i as int) =~= instances@);
        }
        let contents = words_to_bytes(&words);
        let buffer: usize = self.index_driver.next_id();
        let bind_group: usize = self.index_driver.next_id();
        proof {
            assert(!before.model_ids.contains(model_id));
            assert(!before.instance_buffers.dom().contains(model_id));
            assert(!before.uniform_bind_groups.dom().contains(model_id));
        }
        self.model_ids.push(model_id);
        self.num_instances.insert(model_id, instances.len());
        self.instance_buffer_registry.insert(model_id, buffer);
        self.uniform_bind_group_registry.insert(model_id, bind_group);
        let mut commands: Vec<Command> = Vec::new();
        commands.push(
            Command::Buffer(
                BufferCommand::CreateInit {
                    buffer,
                    contents,
                    usage: BufferUsage {
                        copy_src: false,
                        copy_dst: false,
                        index: false,
                        vertex: false,
                        uniform: false,
                        storage: true,
                    },
                },
            ),
        );
        commands.push(Command::UniformBindGroup { bind_group, instances: buffer });
        proof {
            let after = self@;
            assert forall|id: usize| after.model_ids.contains(id) <==> (before.model_ids.contains(
                id,
            ) || id == model_id) by {
                if after.model_ids.contains(id) {
                    let k = choose|k: int| 0 <= k < after.model_ids.len() && after.model_ids[k]
                        == id;
                    if k < before.model_ids.len() {
                        assert(before.model_ids[k] == id);
                    }
                }
                if before.model_ids.contains(id) {
                    let k = choose|k: int|
                        0 <= k < before.model_ids.len() && before.model_ids[k] == id;
                    assert(after.model_ids[k] == id);
                }
                if id == model_id {
                    assert(after.model_ids[before.model_ids.len() as int] == id);
                }
            }
            assert(after.model_ids.no_duplicates()) by {
                assert forall|a: int, b: int|
                    0 <= a < after.model_ids.len() && 0 <= b < after.model_ids.len() && a
                        != b implies after.model_ids[a] != after.model_ids[b] by {
                    if a < before.model_ids.len() && b < before.model_ids.len() {
                        assert(before.model_ids[a] != before.model_ids[b]);
                    } else if a < before.model_ids.len() {
                        assert(before.model_ids.contains(before.model_ids[a]));
                    } else if b < before.model_ids.len() {
                        assert(before.model_ids.contains(before.model_ids[b]));
                    }
                }
            }
        }
        commands
    }

    fn draw_model(&self, commands: &mut Vec<DrawCommand>, model_id: usize)
        requires
            self@.wf(),
            self@.knows(model_id),
        ensures
            final(commands)@ == old(commands)@ + self@.model_plan(model_id),
    {
        proof {
            assert(self@.model_ids.contains(model_id));
            assert(self@.uniform_bind_groups.dom().contains(model_id));
        }
        let bind_group: usize = *self.uniform_bind_group_registry.get(model_id);
        let count: usize = *self.num_instances.get(model_id);
        commands.push(DrawCommand::SetVertexBuffer { slot: 0, buffer: SPHERE_VERTICES });
        commands.push(DrawCommand::SetIndexBuffer { buffer: SPHERE_INDICES });
        commands.push(
            DrawCommand::SetBindGroup { slot: 0, bind_group: BindGroup::Created(bind_group) },
        );
        commands.push(
            DrawCommand::DrawIndexed {
                indices: SPHERE_INDEX_COUNT,
                instances: #[verifier::truncate]
                (count as u32),
            },
        );
        proof {
            assert(commands@ =~= old(commands)@ + self@.model_plan(model_id));
        }
    }
}

impl Drawer for BoundingSpheresDrawer {
    open spec fn draw_plan(&self) -> Seq<DrawCommand> {
        self@.draw_plan()
    }

    open spec fn ready(&self) -> bool {
        self@.wf()
    }

    fn draw(&self) -> (commands: Vec<DrawCommand>) {
        let mut commands: Vec<DrawCommand> = Vec::new();
        commands.push(DrawCommand::SetPipeline);
        let mut i: usize = 0;
        proof {
            assert(commands@ =~= self@.models_plan(0));
        }
        while i < self.model_ids.len()
            invariant
                self@.wf(),
                i <= self@.model_ids.len(),
                self@.model_ids == self.model_ids@,
                commands@ == self@.models_plan(i as nat),
            decreases self@.model_ids.len() - i,
        {
            let model_id: usize = self.model_ids[i];
            proof {
                assert(self@.model_ids.contains(model_id));
            }
            self.draw_model(&mut commands, model_id);
            i = i + 1;
        }
        commands
    }
}

} // verus!
