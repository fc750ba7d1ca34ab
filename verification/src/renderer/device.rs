//! What the device holds once it has carried out a model drawer's commands.

use crate::bytes::is_memory_of;
use crate::buffer::{
    lemma_append_adds_one, lemma_append_extends_contents, lemma_overwrite_is_isolated,
};
use crate::gpu::{
    accepted, all_accepted, apply, buffer_part, created_contents, created_handle,
    lemma_buffer_part_all, lemma_buffer_part_concat, lemma_buffer_part_none, lemma_run_push,
    lemma_run_uploads, run, BufferOp, BufferUsage, CommandOp, DrawCommand, Memory,
};
use crate::model::{vertex_words, Model};
use crate::renderer::model::{
    is_init_plan, is_mesh_id, lemma_place_of, material_ops, mesh_id, new_instance_buffer,
    ModelDrawerView, INITIAL_INSTANCES, INSTANCE_SIZE,
};
use crate::renderer::render::InternalModel;
use vstd::prelude::*;

verus! {

impl ModelDrawerView {
    /// Whether `memory` is what the device holds for this drawer: the instance buffer of
    /// every model at its full size, the buffers of every mesh, and no buffer under a handle
    /// that the drawer has yet to hand out.
    pub open spec fn on_device(self, memory: Memory) -> bool {
        &&& forall|id: usize| #[trigger]
            self.instance_buffers.dom().contains(id) ==> self.instance_buffers[id].backed_by(memory)
        &&& forall|id: usize| #[trigger]
            self.vertex_buffers.dom().contains(id)
                ==> memory.dom().contains(self.vertex_buffers[id])
        &&& forall|id: usize| #[trigger]
            self.index_buffers.dom().contains(id) ==> memory.dom().contains(self.index_buffers[id])
        &&& forall|handle: usize| #[trigger] memory.dom().contains(handle) ==> handle < self.next
    }
}

/// A new drawer is on a device that holds nothing.
pub proof fn lemma_new_drawer_on_device(view: ModelDrawerView)
    requires
        view.instance_buffers == Map::<usize, crate::buffer::BufferState>::empty(),
        view.vertex_buffers == Map::<usize, usize>::empty(),
        view.index_buffers == Map::<usize, usize>::empty(),
    ensures
        view.on_device(Map::<usize, Seq<u8>>::empty()),
{
}

/// Initialising a model keeps drawer and device in step: the device accepts the buffer
/// commands of `init_model`; afterwards it holds the index and vertex buffer of every mesh
/// with the mesh's indices and vertices, and the model's instance buffer; and every buffer
/// that it held before is as it was.
pub proof fn lemma_init_model_on_device(
    before: ModelDrawerView,
    after: ModelDrawerView,
    model: Model,
    ops: Seq<CommandOp>,
    memory: Memory,
)
    requires
        before.wf(),
        before.on_device(memory),
        before.can_init(model),
        before.initialised(model, after),
        is_init_plan(ops, before.next, model),
    ensures
        all_accepted(memory, buffer_part(ops)),
        after.on_device(run(memory, buffer_part(ops))),
        forall|handle: usize| #[trigger]
            memory.dom().contains(handle) ==> run(memory, buffer_part(ops)).dom().contains(handle)
                && run(memory, buffer_part(ops))[handle] == memory[handle],
        forall|i: int|
            0 <= i < model.meshes@.len() ==> {
                let id = mesh_id(before.next + 2 * model.materials@.len(), i);
                &&& is_memory_of(
                    run(memory, buffer_part(ops))[after.index_buffers[id]],
                    (#[trigger] model.meshes@[i]).indices@,
                )
                &&& is_memory_of(
                    run(memory, buffer_part(ops))[after.vertex_buffers[id]],
                    vertex_words(model.meshes@[i].vertices@),
                )
            },
{
    let m = model.materials@.len() as int;
    let n = model.meshes@.len() as int;
    let base = before.next;
    let mesh_base = (base + 2 * m) as nat;
    let limit = (mesh_base + 3 * n) as nat;
    let instances = limit as usize;
    let materials = ops.take(m);
    let uploads = ops.subrange(m, m + 2 * n);
    let rest = ops.subrange(m + 2 * n, m + 2 * n + 2);
    let create = BufferOp::Create {
        buffer: instances,
        size: (INITIAL_INSTANCES * INSTANCE_SIZE) as u64,
        usage: BufferUsage::instance_storage(),
    };
    assert(ops =~= materials + uploads + rest);
    lemma_buffer_part_concat(materials + uploads, rest);
    lemma_buffer_part_concat(materials, uploads);
    assert forall|i: int| 0 <= i < materials.len() implies !(#[trigger] materials[i] is Buffer) by {
        assert(materials[i] == material_ops(base, m as nat)[i]);
    }
    lemma_buffer_part_none(materials);
    assert forall|i: int| 0 <= i < uploads.len() implies #[trigger] uploads[i] is Buffer by {
        let k = i / 2;
        assert(0 <= k < n);
        let mesh = model.meshes@[k];
        if i == 2 * k {
        } else {
            assert(i == 2 * k + 1);
        }
    }
    lemma_buffer_part_all(uploads);
    let created = buffer_part(uploads);
    assert(buffer_part(rest) =~= seq![create]) by {
        let first = rest.drop_last();
        assert(rest.last() == ops[m + 2 * n + 1]);
        assert(first.last() == ops[m + 2 * n]);
        assert(first.drop_last() =~= Seq::<CommandOp>::empty());
        assert(buffer_part(first.drop_last()) =~= Seq::<BufferOp>::empty());
        assert(buffer_part(first) =~= seq![create]);
    }
    assert(buffer_part(ops) =~= created.push(create));
    // every upload creates a buffer of a mesh under a handle of its own
    assert forall|k: int| 0 <= k < n implies {
        &&& created[2 * k] is CreateInit
        &&& created_handle(#[trigger] created[2 * k]) == mesh_base + 3 * k + 1
        &&& is_memory_of(created_contents(created[2 * k]), model.meshes@[k].indices@)
        &&& created[2 * k + 1] is CreateInit
        &&& created_handle(created[2 * k + 1]) == mesh_base + 3 * k + 2
        &&& is_memory_of(
            created_contents(created[2 * k + 1]),
            vertex_words(model.meshes@[k].vertices@),
        )
    } by {
        let mesh = model.meshes@[k];
        assert(CommandOp::Buffer(created[2 * k]) == uploads[2 * k]);
        assert(CommandOp::Buffer(created[2 * k + 1]) == uploads[2 * k + 1]);
    }
    assert forall|i: int| 0 <= i < created.len() implies (#[trigger] created[i]) is CreateInit
        && base <= created_handle(created[i]) < limit && created_handle(created[i]) == mesh_base
        + 3 * (i / 2) + 1 + i % 2 by {
        let k = i / 2;
        assert(0 <= k < n);
        assert(created_handle(created[2 * k]) == mesh_base + 3 * k + 1);
        if i == 2 * k {
        } else {
            assert(i == 2 * k + 1);
        }
    }
    assert forall|i: int, j: int| 0 <= i < j < created.len() implies created_handle(
        #[trigger] created[i],
    ) != created_handle(#[trigger] created[j]) by {
        assert(created_handle(created[i]) == mesh_base + 3 * (i / 2) + 1 + i % 2);
        assert(created_handle(created[j]) == mesh_base + 3 * (j / 2) + 1 + j % 2);
    }
    lemma_run_uploads(memory, created, base, limit);
    lemma_run_push(memory, created, create);
    let uploaded = run(memory, created);
    let written = apply(uploaded, create);
    assert(!uploaded.dom().contains(instances)) by {
        if uploaded.dom().contains(instances) {
            assert(instances < limit);
        }
    }
    assert(accepted(uploaded, create));
    assert(run(memory, buffer_part(ops)) == written);
    assert forall|handle: usize| #[trigger] memory.dom().contains(handle)
        implies written.dom().contains(
        handle,
    ) && written[handle] == memory[handle] by {
        assert(handle < base);
        assert(uploaded[handle] == memory[handle]);
    }
    assert forall|i: int| 0 <= i < n implies {
        let id = mesh_id(mesh_base, i);
        &&& is_memory_of(written[after.index_buffers[id]], (#[trigger] model.meshes@[i]).indices@)
        &&& is_memory_of(written[after.vertex_buffers[id]],
            vertex_words(model.meshes@[i].vertices@))
    } by {
        let id = mesh_id(mesh_base, i);
        assert(is_mesh_id(mesh_base, n as nat, id));
        assert(after.index_buffers[id] == id + 1);
        assert(after.vertex_buffers[id] == id + 2);
        assert(created_handle(created[2 * i]) == id + 1);
        assert(uploaded[created_handle(created[2 * i])] == created_contents(created[2 * i]));
        assert(created_handle(created[2 * i + 1]) == id + 2);
        assert(uploaded[created_handle(created[2 * i + 1])] == created_contents(
            created[2 * i + 1],
        ));
    }
    // the drawer is on the device
    assert forall|id: usize| #[trigger] after.instance_buffers.dom().contains(id)
        implies after.instance_buffers[id].backed_by(
        written,
    ) by {
        if id == model.id {
            assert(after.instance_buffers[id] == new_instance_buffer(instances));
            assert(written[instances].len() == INITIAL_INSTANCES * INSTANCE_SIZE);
        } else {
            assert(before.instance_buffers.dom().contains(id));
            assert(before.instance_buffers[id].backed_by(memory));
            assert(memory.dom().contains(before.instance_buffers[id].buffer));
        }
    }
    assert forall|id: usize| #[trigger] after.vertex_buffers.dom().contains(id)
        implies written.dom().contains(
        after.vertex_buffers[id],
    ) by {
        if before.vertex_buffers.dom().contains(id) {
            assert(after.vertex_buffers[id] == before.vertex_buffers[id]);
            assert(memory.dom().contains(before.vertex_buffers[id]));
        } else {
            assert(is_mesh_id(mesh_base, n as nat, id));
            let i = (id - mesh_base) / 3;
            assert(0 <= i < n && id == mesh_id(mesh_base, i));
            assert(after.vertex_buffers[id] == id + 2);
            assert(created_handle(created[2 * i + 1]) == id + 2) by {
                assert(created_handle(created[2 * i]) == mesh_base + 3 * i + 1);
            }
            assert(uploaded.dom().contains(created_handle(created[2 * i + 1])));
        }
    }
    assert forall|id: usize| #[trigger] after.index_buffers.dom().contains(id)
        implies written.dom().contains(
        after.index_buffers[id],
    ) by {
        if before.index_buffers.dom().contains(id) {
            assert(after.index_buffers[id] == before.index_buffers[id]);
            assert(memory.dom().contains(before.index_buffers[id]));
        } else {
            assert(is_mesh_id(mesh_base, n as nat, id));
            let i = (id - mesh_base) / 3;
            assert(0 <= i < n && id == mesh_id(mesh_base, i));
            assert(after.index_buffers[id] == id + 1);
            assert(created_handle(created[2 * i]) == id + 1);
            assert(uploaded.dom().contains(created_handle(created[2 * i])));
        }
    }
    assert forall|handle: usize| #[trigger] written.dom().contains(handle) implies handle
        < after.next by {
        if handle != instances {
            assert(uploaded.dom().contains(handle));
        }
    }
}

/// The number of instances grows by what is added, and nothing that was there changes:
/// after `add_instances` with `count` records in `data`, the model has exactly `count` more
/// instances and every other model as many as before; and once the device has carried out
/// the buffer commands, the model's instance buffer holds the records that it held,
/// unchanged and in their slots, followed by `data`, while the instance buffer of every
/// other model holds what it held.
pub proof fn lemma_add_instances_keeps_previous(
    before: ModelDrawerView,
    after: ModelDrawerView,
    model_id: usize,
    data: Seq<u8>,
    memory: Memory,
)
    requires
        before.wf(),
        before.on_device(memory),
        data.len() % INSTANCE_SIZE as nat == 0,
        before.can_add(model_id, data.len() / INSTANCE_SIZE as nat),
        before.instances_added(model_id, data.len() / INSTANCE_SIZE as nat, after),
    ensures
        after.num_of_instances(model_id) == before.num_of_instances(model_id) + data.len()
            / INSTANCE_SIZE as nat,
        forall|other: usize|
            before.knows(other) && other != model_id ==> #[trigger] after.num_of_instances(other)
                == before.num_of_instances(other),
        ({
            let written = run(
                memory,
                before.instance_buffers[model_id].append_ops(data, before.next as usize),
            );
            &&& crate::gpu::all_accepted(
                memory,
                before.instance_buffers[model_id].append_ops(data, before.next as usize),
            )
            &&& after.on_device(written)
            &&& after.instance_buffers[model_id].contents(written)
                == before.instance_buffers[model_id].contents(memory) + data
            &&& forall|slot: nat|
                slot < before.instance_buffers[model_id].len
                    ==> #[trigger] after.instance_buffers[model_id].record(written, slot)
                    == before.instance_buffers[model_id].record(memory, slot)
            &&& forall|other: usize|
                before.knows(other) && other != model_id
                    ==> #[trigger] after.instance_buffers[other].contents(written)
                    == before.instance_buffers[other].contents(memory)
        }),
{
    let count = data.len() / INSTANCE_SIZE as nat;
    let fresh = before.next as usize;
    let state = before.instance_buffers[model_id];
    let grown = state.appended(count, fresh);
    let written = run(memory, state.append_ops(data, fresh));
    let place = before.place_of(model_id);
    assert(0 <= place < before.models.len() && before.models[place].id == model_id);
    assert(state.wf() && state.record_size == INSTANCE_SIZE) by {
        assert(before.instance_buffers[before.models[place].id].wf());
    }
    assert(!memory.dom().contains(fresh)) by {
        if memory.dom().contains(fresh) {
            assert(fresh < before.next);
        }
    }
    lemma_append_extends_contents(state, data, fresh, memory);
    // the counts
    assert forall|i: int| 0 <= i < after.models.len() implies after.place_of(
        #[trigger] after.models[i].id,
    ) == i && before.place_of(after.models[i].id) == i by {
        assert(after.models[i].id == before.models[i].id);
        lemma_place_of(before, i);
        let id = after.models[i].id;
        let chosen = after.place_of(id);
        assert(after.models[i].id == id);
        assert(after.models[chosen].id == before.models[chosen].id);
        if chosen < i {
            assert(before.models[chosen].id != before.models[i].id);
        } else if i < chosen {
            assert(before.models[i].id != before.models[chosen].id);
        }
    }
    assert(after.models[place].id == model_id);
    assert forall|other: usize| before.knows(other) && other != model_id
        implies #[trigger] after.num_of_instances(
        other,
    ) == before.num_of_instances(other) by {
        let i = before.place_of(other);
        assert(0 <= i < before.models.len() && before.models[i].id == other);
        assert(after.models[i].id == other);
    }
    // the buffers
    assert forall|id: usize| #[trigger] after.instance_buffers.dom().contains(id)
        implies after.instance_buffers[id].backed_by(
        written,
    ) by {
        if id != model_id {
            assert(before.instance_buffers.dom().contains(id));
            assert(before.instance_buffers[id].backed_by(memory));
            let i = before.place_of(id);
            assert(0 <= i < before.models.len() && before.models[i].id == id);
            assert(before.instance_buffers[before.models[i].id].buffer < before.next);
            assert(before.instance_buffers[id].buffer != state.buffer);
            assert(before.instance_buffers[id].buffer != grown.buffer);
            assert(written[before.instance_buffers[id].buffer]
                == memory[before.instance_buffers[id].buffer]);
        }
    }
    assert forall|other: usize| before.knows(other) && other != model_id
        implies #[trigger] after.instance_buffers[other].contents(
        written,
    ) == before.instance_buffers[other].contents(memory) by {
        assert(before.instance_buffers.dom().contains(other));
        assert(before.instance_buffers[other].backed_by(memory));
        let i = before.place_of(other);
        assert(0 <= i < before.models.len() && before.models[i].id == other);
        assert(before.instance_buffers[before.models[i].id].buffer < before.next);
        assert(before.instance_buffers[other].buffer != state.buffer);
        assert(written[before.instance_buffers[other].buffer]
            == memory[before.instance_buffers[other].buffer]);
    }
    assert forall|slot: nat| slot < state.len implies #[trigger] grown.record(written, slot)
        == state.record(memory, slot) by {
        let size = state.record_size;
        assert((slot + 1) * size <= state.len * size) by (nonlinear_arith)
            requires
                slot < state.len,
        ;
        assert(slot * size <= (slot + 1) * size) by (nonlinear_arith);
        assert(state.len * size <= state.capacity * size) by (nonlinear_arith)
            requires
                state.len <= state.capacity,
        ;
        assert(grown.len * size == state.len * size + count * size) by (nonlinear_arith)
            requires
                grown.len == state.len + count,
        ;
        let held = grown.contents(written);
        assert(held == state.contents(memory) + data);
        assert(grown.record(written, slot) =~= held.subrange(
            (slot * size) as int,
            ((slot + 1) * size) as int,
        ));
        assert(state.record(memory, slot) =~= state.contents(memory).subrange(
            (slot * size) as int,
            ((slot + 1) * size) as int,
        ));
        assert(held.subrange((slot * size) as int, ((slot + 1) * size) as int)
            =~= state.contents(memory).subrange((slot * size) as int, ((slot + 1) * size) as int));
    }
    assert forall|id: usize| #[trigger] after.vertex_buffers.dom().contains(id)
        implies written.dom().contains(
        after.vertex_buffers[id],
    ) by {
        let handle = before.vertex_buffers[id];
        assert(memory.dom().contains(handle));
        if handle != grown.buffer {
            assert(written[handle] == memory[handle]);
        } else {
            assert(grown.backed_by(written));
        }
    }
    assert forall|id: usize| #[trigger] after.index_buffers.dom().contains(id)
        implies written.dom().contains(
        after.index_buffers[id],
    ) by {
        let handle = before.index_buffers[id];
        assert(memory.dom().contains(handle));
        if handle != grown.buffer {
            assert(written[handle] == memory[handle]);
        } else {
            assert(grown.backed_by(written));
        }
    }
    assert forall|handle: usize| #[trigger] written.dom().contains(handle) implies handle
        < after.next by {
        if handle != grown.buffer && !memory.dom().contains(handle) {
            lemma_append_adds_one(state, data, fresh, memory, handle);
        }
        if handle == grown.buffer {
            assert(before.instance_buffers[before.models[place].id].buffer < before.next);
        }
    }
}

/// Updating an object keeps drawer and device in step, and changes one record only: the
/// device accepts the command of `update_object`; afterwards slot `slot` of the model's
/// instance buffer holds `data`, every other slot of it holds what it held, and so does every
/// other buffer.
pub proof fn lemma_update_object_on_device(
    view: ModelDrawerView,
    model_id: usize,
    slot: nat,
    data: Seq<u8>,
    memory: Memory,
)
    requires
        view.wf(),
        view.on_device(memory),
        view.knows(model_id),
        slot < view.instance_buffers[model_id].len,
        data.len() == INSTANCE_SIZE,
    ensures
        ({
            let buffer = view.instance_buffers[model_id];
            let op = buffer.overwrite_op(slot, data);
            let written = apply(memory, op);
            &&& accepted(memory, op)
            &&& view.on_device(written)
            &&& buffer.record(written, slot) == data
            &&& forall|other: nat|
                other != slot && other < buffer.capacity
                    ==> #[trigger] buffer.record(written, other)
                    == buffer.record(memory, other)
            &&& forall|handle: usize|
                memory.dom().contains(handle) && handle != buffer.buffer
                    ==> #[trigger] written[handle]
                    == memory[handle]
        }),
{
    let buffer = view.instance_buffers[model_id];
    let op = buffer.overwrite_op(slot, data);
    let written = apply(memory, op);
    let place = view.place_of(model_id);
    assert(0 <= place < view.models.len() && view.models[place].id == model_id);
    assert(view.instance_buffers[view.models[place].id].wf());
    assert(buffer.backed_by(memory));
    lemma_overwrite_is_isolated(buffer, slot, data, memory);
    assert forall|id: usize| #[trigger] view.instance_buffers.dom().contains(id)
        implies view.instance_buffers[id].backed_by(
        written,
    ) by {
        assert(view.instance_buffers[id].backed_by(memory));
        if view.instance_buffers[id].buffer != buffer.buffer {
            assert(written[view.instance_buffers[id].buffer]
                == memory[view.instance_buffers[id].buffer]);
        }
    }
    assert forall|id: usize| #[trigger] view.vertex_buffers.dom().contains(id)
        implies written.dom().contains(
        view.vertex_buffers[id],
    ) by {
        assert(memory.dom().contains(view.vertex_buffers[id]));
    }
    assert forall|id: usize| #[trigger] view.index_buffers.dom().contains(id)
        implies written.dom().contains(
        view.index_buffers[id],
    ) by {
        assert(memory.dom().contains(view.index_buffers[id]));
    }
}

/// Whether every buffer that `calls` bind is one that `memory` holds.
pub open spec fn buffers_held(calls: Seq<DrawCommand>, memory: Memory) -> bool {
    forall|i: int|
        0 <= i < calls.len() ==> match #[trigger] calls[i] {
            DrawCommand::SetVertexBuffer { buffer, .. } => memory.dom().contains(buffer),
            DrawCommand::SetIndexBuffer { buffer } => memory.dom().contains(buffer),
            _ => true,
        }
}

proof fn lemma_buffers_held_concat(first: Seq<DrawCommand>, second: Seq<DrawCommand>, memory: Memory)
    requires
        buffers_held(first, memory),
        buffers_held(second, memory),
    ensures
        buffers_held(first + second, memory),
{
    let all = first + second;
    assert forall|i: int| 0 <= i < all.len() implies match #[trigger] all[i] {
        DrawCommand::SetVertexBuffer { buffer, .. } => memory.dom().contains(buffer),
        DrawCommand::SetIndexBuffer { buffer } => memory.dom().contains(buffer),
        _ => true,
    } by {
        if i < first.len() {
            assert(all[i] == first[i]);
        } else {
            assert(all[i] == second[i - first.len()]);
        }
    }
}

proof fn lemma_model_buffers_held(
    view: ModelDrawerView,
    place: int,
    meshes: nat,
    memory: Memory,
)
    requires
        view.wf(),
        view.on_device(memory),
        0 <= place < view.models.len(),
        meshes <= view.models[place].internal_meshes@.len(),
    ensures
        buffers_held(view.model_plan(view.models[place], meshes), memory),
    decreases meshes,
{
    if meshes > 0 {
        let model = view.models[place];
        lemma_model_buffers_held(view, place, (meshes - 1) as nat, memory);
        let mesh = model.internal_meshes@[meshes - 1];
        assert(view.mesh_ready(view.models[place].internal_meshes@[meshes - 1]));
        assert(memory.dom().contains(view.vertex_buffers[mesh.id]));
        assert(memory.dom().contains(view.index_buffers[mesh.id]));
        assert(buffers_held(view.mesh_plan(model, mesh), memory));
        lemma_buffers_held_concat(
            view.model_plan(model, (meshes - 1) as nat),
            view.mesh_plan(model, mesh),
            memory,
        );
    }
}

proof fn lemma_models_buffers_held(view: ModelDrawerView, models: nat, memory: Memory)
    requires
        view.wf(),
        view.on_device(memory),
        models <= view.models.len(),
    ensures
        buffers_held(view.models_plan(models), memory),
    decreases models,
{
    if models > 0 {
        lemma_models_buffers_held(view, (models - 1) as nat, memory);
        let model: InternalModel = view.models[models - 1];
        lemma_model_buffers_held(view, models - 1, model.internal_meshes@.len(), memory);
        lemma_buffers_held_concat(
            view.models_plan((models - 1) as nat),
            view.model_plan(model, model.internal_meshes@.len()),
            memory,
        );
    }
}

/// No draw reaches for a buffer that is not there: while drawer and device are in step,
/// every vertex and index buffer that a frame binds is one that the device holds.
pub proof fn lemma_draw_uses_held_buffers(view: ModelDrawerView, memory: Memory)
    requires
        view.wf(),
        view.on_device(memory),
    ensures
        buffers_held(view.draw_plan(), memory),
{
    lemma_models_buffers_held(view, view.models.len(), memory);
}

} // verus!
