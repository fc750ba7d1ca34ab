use crate::gpu::{Command, DrawCommand, PrimitiveTopology};
use crate::gui::Color;
use crate::model::{Model, SimpleVertex};
use crate::renderer::debug::{is_line_setup, is_line_update, line_plan, DebugDrawer};
use crate::renderer::bounding_sphere::{
    is_sphere_plan, is_sphere_setup, BoundingSpheresDrawer, BoundingSpheresView,
};
use crate::renderer::model::{
    is_add_plan, is_init_plan, is_update_plan, ModelDrawer, ModelDrawerView,
};
use crate::scene::{transform_words, Object, RawTransform};
use crate::texture::{Texture, TextureType};
use crate::gpu::command_ops;
use vstd::prelude::*;

verus! {

/// What a drawer keeps of one mesh of a model.
#[derive(Clone, Copy, Debug)]
pub struct InternalMesh {
    pub id: usize,
    /// The number of indices of the mesh.
    pub count: usize,
    /// The material of the mesh, if its model has materials.
    pub material_id: Option<usize>,
}

/// What a drawer keeps of a model whose resources are on the device.
#[derive(Debug)]
pub struct InternalModel {
    pub id: usize,
    /// The instances that a draw call covers.
    pub num_of_instances: usize,
    pub internal_meshes: Vec<InternalMesh>,
}

/// Anything that can draw into a render pass that is open.
pub trait Drawer {
    /// The calls that draw everything the drawer holds.
    spec fn draw_plan(&self) -> Seq<DrawCommand>;

    /// Whether the drawer's bookkeeping is consistent.
    spec fn ready(&self) -> bool;

    /// The calls on the render pass, in order.
    fn draw(&self) -> (commands: Vec<DrawCommand>)
        requires
            self.ready(),
        ensures
            commands@ == self.draw_plan(),
    ;
}

/// The drawers of a frame, in the order in which they draw.
#[derive(Clone, Copy, Debug, PartialEq, Eq, Structural)]
pub enum DrawerKind {
    Model,
    Debug,
    BoundingSpheres,
}

/// One step of rendering a frame.
#[derive(Clone, Copy, Debug, PartialEq, Eq, Structural)]
pub enum FrameStep {
    /// Take the next frame of the surface.
    AcquireFrame,
    /// Open the render pass: colour cleared to `clear`, depth to the far plane, stencil to
    /// zero.
    BeginPass { clear: Color },
    /// One call of `drawer` on the open pass.
    Draw { drawer: DrawerKind, command: DrawCommand },
    /// Close the render pass.
    EndPass,
    /// Let the overlay paint over the frame.
    CompositeGui,
    /// Hand the recorded work to the device.
    Submit,
    /// Show the cursor that the overlay asks for.
    UpdateCursor,
}

impl FrameStep {
    /// The place of a step in the order of a frame.
    pub open spec fn rank(self) -> int {
        match self {
            FrameStep::AcquireFrame => 0,
            FrameStep::BeginPass { .. } => 1,
            FrameStep::Draw { drawer: DrawerKind::Model, .. } => 2,
            FrameStep::Draw { drawer: DrawerKind::Debug, .. } => 3,
            FrameStep::Draw { drawer: DrawerKind::BoundingSpheres, .. } => 4,
            FrameStep::EndPass => 5,
            FrameStep::CompositeGui => 6,
            FrameStep::Submit => 7,
            FrameStep::UpdateCursor => 8,
        }
    }
}

/// The calls `commands` as steps of the drawer `drawer`.
pub open spec fn tagged(drawer: DrawerKind, commands: Seq<DrawCommand>) -> Seq<FrameStep> {
    Seq::new(commands.len(), |i: int| FrameStep::Draw { drawer, command: commands[i] })
}

/// What a rendering state holds, as mathematical values.
pub struct RenderingView {
    /// Width and height of the surface.
    pub size: (u32, u32),
    pub models: ModelDrawerView,
    /// The drawer of the bounding spheres, once it was initialised.
    pub bounding_spheres: Option<BoundingSpheresView>,
}

impl RenderingView {
    /// What the drawer of the bounding spheres holds; before it is created, what a new one
    /// holds.
    pub open spec fn spheres(self) -> BoundingSpheresView {
        match self.bounding_spheres {
            Some(spheres) => spheres,
            None => BoundingSpheresView::empty(),
        }
    }

    /// The steps of one frame on the colour `background`: the model drawer draws first, then
    /// the debug drawer, then the drawer of the bounding spheres if there is one; the overlay
    /// comes on top.
    pub open spec fn frame_plan(self, background: Color) -> Seq<FrameStep> {
        seq![FrameStep::AcquireFrame, FrameStep::BeginPass { clear: background }]
            + tagged(DrawerKind::Model, self.models.draw_plan()) + tagged(
            DrawerKind::Debug,
            line_plan(),
        ) + match self.bounding_spheres {
            Some(spheres) => tagged(DrawerKind::BoundingSpheres, spheres.draw_plan()),
            None => Seq::<FrameStep>::empty(),
        } + seq![
            FrameStep::EndPass,
            FrameStep::CompositeGui,
            FrameStep::Submit,
            FrameStep::UpdateCursor,
        ]
    }
}

/// Whether the steps of `steps` come in the order of a frame, all within the ranks `low` to
/// `high`.
pub open spec fn in_order(steps: Seq<FrameStep>, low: int, high: int) -> bool {
    &&& forall|i: int| 0 <= i < steps.len() ==> low <= (#[trigger] steps[i]).rank() <= high
    &&& forall|i: int, j: int|
        0 <= i < j < steps.len() ==> (#[trigger] steps[i]).rank() <= (#[trigger] steps[j]).rank()
}

proof fn lemma_in_order_concat(first: Seq<FrameStep>, second: Seq<FrameStep>, low: int,
    middle: int, high: int)
    requires
        in_order(first, low, middle),
        in_order(second, middle, high),
        low <= middle <= high,
    ensures
        in_order(first + second, low, high),
{
    let all = first + second;
    assert forall|i: int| 0 <= i < all.len() implies low <= (#[trigger] all[i]).rank() <= high by {
        if i < first.len() {
            assert(all[i] == first[i]);
        } else {
            assert(all[i] == second[i - first.len()]);
        }
    }
    assert forall|i: int, j: int| 0 <= i < j < all.len() implies (#[trigger] all[i]).rank() <= (
    #[trigger] all[j]).rank() by {
        if j < first.len() {
            assert(all[i] == first[i] && all[j] == first[j]);
        } else if i < first.len() {
            assert(all[i] == first[i] && all[j] == second[j - first.len()]);
        } else {
            assert(all[i] == second[i - first.len()] && all[j] == second[j - first.len()]);
        }
    }
}

/// The order of drawing is fixed: in the steps of a frame, every call of the model drawer
/// precedes every call of the debug drawer, which precedes every call of the drawer of the
/// bounding spheres; all of them lie between the opening and the closing of the pass, and
/// the overlay, the submission and the cursor follow in that order.
pub proof fn lemma_frame_in_order(view: RenderingView, background: Color)
    ensures
        in_order(view.frame_plan(background), 0, 8),
{
    let opening = seq![FrameStep::AcquireFrame, FrameStep::BeginPass { clear: background }];
    let models = tagged(DrawerKind::Model, view.models.draw_plan());
    let debug = tagged(DrawerKind::Debug, line_plan());
    let spheres = match view.bounding_spheres {
        Some(spheres) => tagged(DrawerKind::BoundingSpheres, spheres.draw_plan()),
        None => Seq::<FrameStep>::empty(),
    };
    let closing = seq![
        FrameStep::EndPass,
        FrameStep::CompositeGui,
        FrameStep::Submit,
        FrameStep::UpdateCursor,
    ];
    assert(in_order(opening, 0, 2));
    assert(in_order(models, 2, 3));
    assert(in_order(debug, 3, 4));
    assert(in_order(spheres, 4, 5));
    assert(in_order(closing, 5, 8));
    lemma_in_order_concat(opening, models, 0, 2, 3);
    lemma_in_order_concat(opening + models, debug, 0, 3, 4);
    lemma_in_order_concat(opening + models + debug, spheres, 0, 4, 5);
    lemma_in_order_concat(opening + models + debug + spheres, closing, 0, 5, 8);
}

/// Everything that is rendered: the drawers and the size of the surface.
pub struct RenderingState {
    width: u32,
    height: u32,
    model_drawer: ModelDrawer,
    debug_drawer: DebugDrawer,
    bounding_spheres_drawer: Option<BoundingSpheresDrawer>,
}

impl View for RenderingState {
    type V = RenderingView;

    closed spec fn view(&self) -> RenderingView {
        RenderingView {
            size: (self.width, self.height),
            models: self.model_drawer@,
            bounding_spheres: match self.bounding_spheres_drawer {
                Some(drawer) => Some(drawer@),
                None => None,
            },
        }
    }
}

fn push_tagged(steps: &mut Vec<FrameStep>, drawer: DrawerKind, commands: &Vec<DrawCommand>)
    ensures
        final(steps)@ == old(steps)@ + tagged(drawer, commands@),
{
    let mut i: usize = 0;
    proof {
        assert(steps@ =~= old(steps)@ + tagged(drawer, commands@.take(0)));
    }
    while i < commands.len()
        invariant
            i <= commands@.len(),
            steps@ == old(steps)@ + tagged(drawer, commands@.take(i as int)),
        decreases commands@.len() - i,
    {
        steps.push(FrameStep::Draw { drawer, command: commands[i] });
        proof {
            assert(steps@ =~= old(steps)@ + tagged(drawer, commands@.take(i + 1)));
        }
        i = i + 1;
    }
    proof {
        assert(commands@.take(i as int) =~= commands@);
    }
}

impl RenderingState {
    /// Whether every drawer is consistent.
    pub closed spec fn wf(&self) -> bool {
        &&& self.model_drawer.wf()
        &&& self.debug_drawer.wf()
        &&& match self.bounding_spheres_drawer {
            Some(drawer) => drawer@.wf(),
            None => true,
        }
    }

    /// The state for a surface of `width` by `height` pixels, with a model drawer that
    /// draws triangles, a debug drawer and no drawer of bounding spheres yet; and the
    /// command that sets the debug drawer up.
    pub fn new(width: u32, height: u32) -> (created: (RenderingState, Command))
        ensures
            created.0.wf(),
            created.0@ == (RenderingView {
                size: (width, height),
                models: ModelDrawer::new_view(PrimitiveTopology::TriangleList),
                bounding_spheres: None,
            }),
            is_line_setup(created.1@),
    {
        let model_drawer = ModelDrawer::new(PrimitiveTopology::TriangleList);
        let (debug_drawer, setup) = DebugDrawer::new();
        (
            RenderingState {
                width,
                height,
                model_drawer,
                debug_drawer,
                bounding_spheres_drawer: None,
            },
            setup,
        )
    }

    /// The drawer of the models.
    pub fn model_drawer(&self) -> (drawer: &ModelDrawer)
        ensures
            drawer@ == self@.models,
            self.wf() ==> drawer.wf(),
    {
        &self.model_drawer
    }

    /// The drawer of the bounding spheres, once it was initialised.
    pub fn bounding_spheres_drawer(&self) -> (drawer: Option<&BoundingSpheresDrawer>)
        ensures
            drawer.is_some() == self@.bounding_spheres.is_some(),
            drawer.is_some() ==> drawer.unwrap()@ == self@.bounding_spheres.unwrap() && (self.wf()
                ==> drawer.unwrap()@.wf()),
    {
        match &self.bounding_spheres_drawer {
            Some(drawer) => Some(drawer),
            None => None,
        }
    }

    /// Width and height of the surface.
    pub fn size(&self) -> (size: (u32, u32))
        ensures
            size == self@.size,
    {
        (self.width, self.height)
    }

    /// The depth texture that fits the surface.
    pub fn depth_texture(&self) -> (texture: Texture)
        ensures
            texture.label@ == "depth_texture"@,
            texture.dimensions == self@.size,
            texture.type_ == TextureType::Depth,
            texture.rgba_image.is_none(),
    {
        Texture::create_depth_texture(self.width, self.height, "depth_texture")
    }

    /// Takes the new size of the surface in and returns the depth texture that fits it.
    pub fn resize(&mut self, width: u32, height: u32) -> (texture: Texture)
        requires
            old(self).wf(),
        ensures
            final(self).wf(),
            final(self)@ == (RenderingView { size: (width, height), ..old(self)@ }),
            texture.label@ == "depth_texture"@,
            texture.dimensions == (width, height),
            texture.type_ == TextureType::Depth,
            texture.rgba_image.is_none(),
    {
        self.width = width;
        self.height = height;
        Texture::create_depth_texture(width, height, "depth_texture")
    }

    /// Puts `model` on the device for the model drawer.
    pub fn init_model(&mut self, model: &Model) -> (commands: Vec<Command>)
        requires
            old(self).wf(),
            old(self)@.models.can_init(*model),
        ensures
            final(self).wf(),
            old(self)@.models.initialised(*model, final(self)@.models),
            final(self)@ == (RenderingView { models: final(self)@.models, ..old(self)@ }),
            is_init_plan(command_ops(commands@), old(self)@.models.next, *model),
    {
        self.model_drawer.init_model(model)
    }

    /// Adds one instance of `model` for each of `transforms` to the model drawer.
    pub fn add_instances(&mut self, model: &Model, transforms: &Vec<RawTransform>) -> (commands:
        Vec<Command>)
        requires
            old(self).wf(),
            old(self)@.models.can_add(model.id, transforms@.len()),
        ensures
            final(self).wf(),
            old(self)@.models.instances_added(model.id, transforms@.len(), final(self)@.models),
            final(self)@ == (RenderingView { models: final(self)@.models, ..old(self)@ }),
            is_add_plan(
                command_ops(commands@),
                old(self)@.models.instance_buffers[model.id],
                old(self)@.models.next as usize,
                transform_words(transforms@),
            ),
    {
        self.model_drawer.add_instances(model.id, transforms)
    }

    /// Creates the drawer of the bounding spheres, of which there must be none yet, and
    /// returns the commands that set it up.
    pub fn init_bounding_sphere(&mut self) -> (commands: Vec<Command>)
        requires
            old(self).wf(),
            old(self)@.bounding_spheres.is_none(),
        ensures
            final(self).wf(),
            final(self)@ == (RenderingView {
                bounding_spheres: Some(BoundingSpheresView::empty()),
                ..old(self)@
            }),
            is_sphere_setup(command_ops(commands@)),
    {
        let (drawer, commands) = BoundingSpheresDrawer::new();
        self.bounding_spheres_drawer = Some(drawer);
        commands
    }

    /// Adds a bounding sphere of the radius `radius` round each of `instances`, the instances
    /// of the model `model_id`. The drawer of the bounding spheres is created on first use:
    /// the commands that set it up then come first.
    pub fn add_bounding_sphere_instances(
        &mut self,
        model_id: usize,
        instances: &Vec<&Object>,
        radius: u32,
    ) -> (commands: Vec<Command>)
        requires
            old(self).wf(),
            old(self)@.spheres().next + 2 <= usize::MAX,
            !old(self)@.spheres().knows(model_id),
        ensures
            final(self).wf(),
            final(self)@ == (RenderingView {
                bounding_spheres: Some(
                    old(self)@.spheres().added(model_id, instances@.len() as usize),
                ),
                ..old(self)@
            }),
            old(self)@.bounding_spheres.is_some() ==> is_sphere_plan(
                command_ops(commands@),
                old(self)@.spheres().next as usize,
                instances@,
                radius,
            ),
            old(self)@.bounding_spheres.is_none() ==> is_sphere_setup(
                command_ops(commands@).take(2),
            ) && is_sphere_plan(
                command_ops(commands@).skip(2),
                old(self)@.spheres().next as usize,
                instances@,
                radius,
            ),
    {
        let mut taken: Option<BoundingSpheresDrawer> = None;
        std::mem::swap(&mut taken, &mut self.bounding_spheres_drawer);
        let (mut drawer, mut commands) = match taken {
            Some(drawer) => (drawer, Vec::new()),
            None => BoundingSpheresDrawer::new(),
        };
        let ghost setup = commands@;
        let mut added = drawer.add(model_id, instances, radius);
        let ghost plan = added@;
        commands.append(&mut added);
        self.bounding_spheres_drawer = Some(drawer);
        proof {
            assert(commands@ =~= setup + plan);
            if old(self)@.bounding_spheres.is_some() {
                assert(command_ops(commands@) =~= command_ops(plan));
            } else {
                assert(command_ops(commands@).take(2) =~= command_ops(setup));
                assert(command_ops(commands@).skip(2) =~= command_ops(plan));
            }
        }
        commands
    }

    /// The command that replaces the record of `object` in the model drawer by `transform`.
    pub fn update_object(&self, object: &Object, transform: &RawTransform) -> (command: Command)
        requires
            self.wf(),
            self@.models.knows(object.model_id),
            object.instance_id < self@.models.instance_buffers[object.model_id].len,
        ensures
            is_update_plan(
                command@,
                self@.models.instance_buffers[object.model_id],
                object.instance_id as nat,
                transform.transform@,
            ),
    {
        self.model_drawer.update_object(object, transform)
    }

    /// The command that makes the debug line run from `start` to `end`.
    pub fn add_line(&self, start: SimpleVertex, end: SimpleVertex) -> (command: Command)
        requires
            self.wf(),
        ensures
            is_line_update(command@, start, end),
    {
        self.debug_drawer.add_line(start, end)
    }

    /// The steps of one frame on the colour `background`. They depend on the state and the
    /// colour alone, so an unchanged state renders the same steps again.
    pub fn render(&self, background: Color) -> (steps: Vec<FrameStep>)
        requires
            self.wf(),
        ensures
            steps@ == self@.frame_plan(background),
    {
        let mut steps: Vec<FrameStep> = Vec::new();
        steps.push(FrameStep::AcquireFrame);
        steps.push(FrameStep::BeginPass { clear: background });
        proof {
            assert(steps@ =~= seq![
                FrameStep::AcquireFrame,
                FrameStep::BeginPass { clear: background },
            ]);
        }
        let model_calls = self.model_drawer.draw();
        push_tagged(&mut steps, DrawerKind::Model, &model_calls);
        let debug_calls = self.debug_drawer.draw();
        push_tagged(&mut steps, DrawerKind::Debug, &debug_calls);
        if let Some(bounding_spheres_drawer) = &self.bounding_spheres_drawer {
            let sphere_calls = bounding_spheres_drawer.draw();
            push_tagged(&mut steps, DrawerKind::BoundingSpheres, &sphere_calls);
        }
        let ghost drawn = steps@;
        steps.push(FrameStep::EndPass);
        steps.push(FrameStep::CompositeGui);
        steps.push(FrameStep::Submit);
        steps.push(FrameStep::UpdateCursor);
        proof {
            assert(steps@ =~= drawn + seq![
                FrameStep::EndPass,
                FrameStep::CompositeGui,
                FrameStep::Submit,
                FrameStep::UpdateCursor,
            ]);
            if self.bounding_spheres_drawer.is_none() {
                let before = seq![
                    FrameStep::AcquireFrame,
                    FrameStep::BeginPass { clear: background },
                ] + tagged(DrawerKind::Model, self@.models.draw_plan()) + tagged(
                    DrawerKind::Debug,
                    line_plan(),
                );
                assert(drawn =~= before + Seq::<FrameStep>::empty());
            }
        }
        steps
    }
}

} // verus!
