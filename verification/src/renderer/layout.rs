//! What the pipelines of the drawers expect in each bind group.

use crate::gpu::{BindGroup, DrawCommand};
use crate::renderer::bounding_sphere::BoundingSpheresView;
use crate::renderer::debug::line_plan;
use crate::renderer::model::ModelDrawerView;
use crate::renderer::render::InternalModel;
use vstd::prelude::*;

verus! {

/// The shader stages that can see a binding.
#[derive(Clone, Copy, Debug, PartialEq, Eq, Structural)]
pub struct ShaderStages {
    pub vertex: bool,
    pub fragment: bool,
}

/// What is bound at a binding.
#[derive(Clone, Copy, Debug, PartialEq, Eq, Structural)]
pub enum BindingKind {
    /// A uniform buffer.
    Uniform,
    /// A storage buffer that shaders only read.
    Storage,
    /// A two-dimensional texture.
    Texture,
    /// A sampler.
    Sampler,
}

/// One binding of a bind group.
#[derive(Clone, Copy, Debug, PartialEq, Eq, Structural)]
pub struct BindGroupLayoutEntry {
    pub binding: u32,
    pub visibility: ShaderStages,
    pub kind: BindingKind,
}

/// What a bind group of a pipeline is for.
#[derive(Clone, Copy, Debug, PartialEq, Eq, Structural)]
pub enum BindGroupRole {
    /// The camera uniform and the instance records of a model.
    Uniform,
    /// The textures and samplers of a material.
    Material,
    /// The light.
    Light,
    /// The camera uniform alone.
    Camera,
}

/// A binding that the vertex stage sees.
pub open spec fn for_vertex(binding: u32, kind: BindingKind) -> BindGroupLayoutEntry {
    BindGroupLayoutEntry {
        binding,
        visibility: ShaderStages { vertex: true, fragment: false },
        kind,
    }
}

/// A binding that the fragment stage sees.
pub open spec fn for_fragment(binding: u32, kind: BindingKind) -> BindGroupLayoutEntry {
    BindGroupLayoutEntry {
        binding,
        visibility: ShaderStages { vertex: false, fragment: true },
        kind,
    }
}

/// A binding that both stages see.
pub open spec fn for_both(binding: u32, kind: BindingKind) -> BindGroupLayoutEntry {
    BindGroupLayoutEntry {
        binding,
        visibility: ShaderStages { vertex: true, fragment: true },
        kind,
    }
}

/// The bindings of a bind group with the role `role`.
pub open spec fn layout_of(role: BindGroupRole) -> Seq<BindGroupLayoutEntry> {
    match role {
        BindGroupRole::Uniform => seq![
            for_both(0, BindingKind::Uniform),
            for_vertex(1, BindingKind::Storage),
        ],
        BindGroupRole::Material => seq![
            for_fragment(0, BindingKind::Texture),
            for_fragment(1, BindingKind::Sampler),
            for_fragment(2, BindingKind::Texture),
            for_fragment(3, BindingKind::Sampler),
        ],
        BindGroupRole::Light => seq![for_both(0, BindingKind::Uniform)],
        BindGroupRole::Camera => seq![for_vertex(0, BindingKind::Uniform)],
    }
}

/// The roles of the bind groups of the pipeline of a model drawer, slot by slot.
pub open spec fn model_slots() -> Seq<BindGroupRole> {
    seq![BindGroupRole::Uniform, BindGroupRole::Material, BindGroupRole::Light]
}

/// The roles of the bind groups of the pipeline of the debug drawer.
pub open spec fn debug_slots() -> Seq<BindGroupRole> {
    seq![BindGroupRole::Camera]
}

/// The roles of the bind groups of the pipeline of the drawer of the bounding spheres.
pub open spec fn sphere_slots() -> Seq<BindGroupRole> {
    seq![BindGroupRole::Uniform]
}

fn entry(binding: u32, vertex: bool, fragment: bool, kind: BindingKind) -> (made:
    BindGroupLayoutEntry)
    ensures
        made == (BindGroupLayoutEntry {
            binding,
            visibility: ShaderStages { vertex, fragment },
            kind,
        }),
{
    BindGroupLayoutEntry { binding, visibility: ShaderStages { vertex, fragment }, kind }
}

/// The layout of a bind group with the role `role`: its bindings, numbered from 0.
pub fn bind_group_layout(role: BindGroupRole) -> (entries: Vec<BindGroupLayoutEntry>)
    ensures
        entries@ == layout_of(role),
        forall|i: int| 0 <= i < entries@.len() ==> (#[trigger] entries@[i]).binding == i,
{
    let mut entries: Vec<BindGroupLayoutEntry> = Vec::new();
    match role {
        BindGroupRole::Uniform => {
            entries.push(entry(0, true, true, BindingKind::Uniform));
            entries.push(entry(1, true, false, BindingKind::Storage));
        },
        BindGroupRole::Material => {
            entries.push(entry(0, false, true, BindingKind::Texture));
            entries.push(entry(1, false, true, BindingKind::Sampler));
            entries.push(entry(2, false, true, BindingKind::Texture));
            entries.push(entry(3, false, true, BindingKind::Sampler));
        },
        BindGroupRole::Light => {
            entries.push(entry(0, true, true, BindingKind::Uniform));
        },
        BindGroupRole::Camera => {
            entries.push(entry(0, true, false, BindingKind::Uniform));
        },
    }
    proof {
        assert(entries@ =~= layout_of(role));
    }
    entries
}

/// The layout of the pipeline of a model drawer: the role of the bind group of each slot.
pub fn model_pipeline_layout() -> (slots: Vec<BindGroupRole>)
    ensures
        slots@ == model_slots(),
{
    let mut slots: Vec<BindGroupRole> = Vec::new();
    slots.push(BindGroupRole::Uniform);
    slots.push(BindGroupRole::Material);
    slots.push(BindGroupRole::Light);
    proof {
        assert(slots@ =~= model_slots());
    }
    slots
}

/// The layout of the pipeline of the debug drawer.
pub fn debug_pipeline_layout() -> (slots: Vec<BindGroupRole>)
    ensures
        slots@ == debug_slots(),
{
    let mut slots: Vec<BindGroupRole> = Vec::new();
    slots.push(BindGroupRole::Camera);
    proof {
        assert(slots@ =~= debug_slots());
    }
    slots
}

/// The layout of the pipeline of the drawer of the bounding spheres.
pub fn sphere_pipeline_layout() -> (slots: Vec<BindGroupRole>)
    ensures
        slots@ == sphere_slots(),
{
    let mut slots: Vec<BindGroupRole> = Vec::new();
    slots.push(BindGroupRole::Uniform);
    proof {
        assert(slots@ =~= sphere_slots());
    }
    slots
}

/// The role that a bind group has to have where a drawer binds it: one that a drawer created
/// is bound in slot 1 as a material, elsewhere as the uniforms of a model.
pub open spec fn role_of(slot: u32, bind_group: BindGroup) -> BindGroupRole {
    match bind_group {
        BindGroup::Light => BindGroupRole::Light,
        BindGroup::Camera => BindGroupRole::Camera,
        BindGroup::Created(_) => if slot == 1 {
            BindGroupRole::Material
        } else {
            BindGroupRole::Uniform
        },
    }
}

/// Whether every bind group that `calls` bind goes into a slot that the pipeline has, and
/// has the role that the pipeline expects there.
pub open spec fn binds_fit(calls: Seq<DrawCommand>, slots: Seq<BindGroupRole>) -> bool {
    forall|i: int|
        0 <= i < calls.len() ==> match #[trigger] calls[i] {
            DrawCommand::SetBindGroup { slot, bind_group } => slot < slots.len() && slots[slot as int]
                == role_of(slot, bind_group),
            _ => true,
        }
}

proof fn lemma_binds_fit_concat(
    first: Seq<DrawCommand>,
    second: Seq<DrawCommand>,
    slots: Seq<BindGroupRole>,
)
    requires
        binds_fit(first, slots),
        binds_fit(second, slots),
    ensures
        binds_fit(first + second, slots),
{
    let all = first + second;
    assert forall|i: int| 0 <= i < all.len() implies match #[trigger] all[i] {
        DrawCommand::SetBindGroup { slot, bind_group } => slot < slots.len() && slots[slot as int]
            == role_of(slot, bind_group),
        _ => true,
    } by {
        if i < first.len() {
            assert(all[i] == first[i]);
        } else {
            assert(all[i] == second[i - first.len()]);
        }
    }
}

proof fn lemma_model_binds_fit(view: ModelDrawerView, model: InternalModel, meshes: nat)
    requires
        meshes <= model.internal_meshes@.len(),
    ensures
        binds_fit(view.model_plan(model, meshes), model_slots()),
    decreases meshes,
{
    if meshes > 0 {
        lemma_model_binds_fit(view, model, (meshes - 1) as nat);
        let mesh = model.internal_meshes@[meshes - 1];
        assert(binds_fit(view.mesh_plan(model, mesh), model_slots()));
        lemma_binds_fit_concat(
            view.model_plan(model, (meshes - 1) as nat),
            view.mesh_plan(model, mesh),
            model_slots(),
        );
    }
}

proof fn lemma_models_bind_fit(view: ModelDrawerView, models: nat)
    requires
        models <= view.models.len(),
    ensures
        binds_fit(view.models_plan(models), model_slots()),
    decreases models,
{
    if models > 0 {
        lemma_models_bind_fit(view, (models - 1) as nat);
        let model = view.models[models - 1];
        lemma_model_binds_fit(view, model, model.internal_meshes@.len());
        lemma_binds_fit_concat(
            view.models_plan((models - 1) as nat),
            view.model_plan(model, model.internal_meshes@.len()),
            model_slots(),
        );
    }
}

proof fn lemma_spheres_bind_fit(view: BoundingSpheresView, models: nat)
    requires
        models <= view.model_ids.len(),
    ensures
        binds_fit(view.models_plan(models), sphere_slots()),
    decreases models,
{
    if models > 0 {
        lemma_spheres_bind_fit(view, (models - 1) as nat);
        assert(binds_fit(view.model_plan(view.model_ids[models - 1]), sphere_slots()));
        lemma_binds_fit_concat(
            view.models_plan((models - 1) as nat),
            view.model_plan(view.model_ids[models - 1]),
            sphere_slots(),
        );
    }
}

/// What the drawers bind is what their pipelines expect: every bind group of a frame goes
/// into a slot of the pipeline of its drawer, with the role that the pipeline has there.
pub proof fn lemma_draws_fit_pipelines(models: ModelDrawerView, spheres: BoundingSpheresView)
    ensures
        binds_fit(models.draw_plan(), model_slots()),
        binds_fit(line_plan(), debug_slots()),
        binds_fit(spheres.draw_plan(), sphere_slots()),
{
    lemma_models_bind_fit(models, models.models.len());
    lemma_spheres_bind_fit(spheres, spheres.model_ids.len());
}

} // verus!
