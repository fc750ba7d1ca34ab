use crate::bytes::{is_memory_of, words_to_bytes};
use crate::index::IndexDriver;
use crate::model::Model;
use vstd::prelude::*;

verus! {

/// Where an object stands, how it is turned and how large it is. Each component is the bit
/// pattern of a 32-bit IEEE 754 number; a rotation is a quaternion.
#[derive(Clone, Copy, Debug)]
pub struct Transform {
    pub position: [u32; 3],
    pub rotation: [u32; 4],
    pub scale: [u32; 3],
}

/// The model matrix of a transform, column by column: the one record that the device
/// holds for an instance.
#[derive(Clone, Copy, Debug)]
pub struct RawTransform {
    pub transform: [u32; 16],
}

/// Bytes that the device holds for one instance.
pub const RAW_TRANSFORM_SIZE: usize = 64;

/// The words of `transforms`, matrix after matrix.
pub open spec fn transform_words(transforms: Seq<RawTransform>) -> Seq<u32>
    decreases transforms.len(),
{
    if transforms.len() == 0 {
        Seq::<u32>::empty()
    } else {
        transform_words(transforms.drop_last()) + transforms.last().transform@
    }
}

/// Every matrix has sixteen words.
pub proof fn lemma_transform_words_len(transforms: Seq<RawTransform>)
    ensures
        transform_words(transforms).len() == 16 * transforms.len(),
    decreases transforms.len(),
{
    if transforms.len() > 0 {
        lemma_transform_words_len(transforms.drop_last());
    }
}

/// The instance records of `transforms` as the device holds them: `RAW_TRANSFORM_SIZE`
/// bytes each, in order.
pub fn raw_transform_bytes(transforms: &Vec<RawTransform>) -> (bytes: Vec<u8>)
    ensures
        is_memory_of(bytes@, transform_words(transforms@)),
        bytes@.len() == RAW_TRANSFORM_SIZE * transforms@.len(),
{
    let mut words: Vec<u32> = Vec::new();
    let mut i: usize = 0;
    while i < transforms.len()
        invariant
            i <= transforms@.len(),
            words@ == transform_words(transforms@.take(i as int)),
        decreases transforms@.len() - i,
    {
        let matrix = transforms[i].transform;
        let ghost before = words@;
        let mut j: usize = 0;
        while j < 16
            invariant
                j <= 16,
                words@ == before + matrix@.take(j as int),
            decreases 16 - j,
        {
            words.push(matrix[j]);
            proof {
                assert(words@ =~= before + matrix@.take(j + 1));
            }
            j = j + 1;
        }
        proof {
            assert(matrix@.take(16) =~= matrix@);
            assert(transforms@.take(i + 1).drop_last() =~= transforms@.take(i as int));
            assert(transforms@.take(i + 1).last() == transforms@[i as int]);
        }
        i = i + 1;
    }
    proof {
        assert(transforms@.take(i as int) =~= transforms@);
        lemma_transform_words_len(transforms@);
    }
    words_to_bytes(&words)
}

/// One instance of a model in the scene.
#[derive(Clone, Copy, Debug)]
pub struct Object {
    /// The handle of the object in its scene.
    pub id: usize,
    /// The handle of the model that the object shows.
    pub model_id: usize,
    /// The slot of the object among the instances of its model.
    pub instance_id: usize,
    pub transform: Transform,
}

/// What a scene holds, as mathematical values.
pub struct SceneView {
    /// The handles of the models, in the order in which they were first added.
    pub model_ids: Seq<usize>,
    /// The models by handle.
    pub models: Map<usize, Model>,
    /// For each model, the handles of its objects in the order of their creation.
    pub instances: Map<usize, Seq<usize>>,
    /// The objects; the handle of each is its place.
    pub objects: Seq<Object>,
}

impl SceneView {
    /// Whether a model with the handle `model_id` was added.
    pub open spec fn knows(self, model_id: usize) -> bool {
        self.models.dom().contains(model_id)
    }

    /// The invariant of a scene: model handles are distinct, every model has a list of
    /// instances, an object's handle is its place, and the object in slot `k` of a model's
    /// instances knows that model and that slot.
    pub open spec fn wf(self) -> bool {
        &&& self.model_ids.no_duplicates()
        &&& forall|id: usize| self.model_ids.contains(id)
            <==> #[trigger] self.models.dom().contains(id)
        &&& forall|id: usize| self.model_ids.contains(id)
            <==> #[trigger] self.instances.dom().contains(id)
        &&& forall|id: usize| #[trigger] self.models.dom().contains(id) ==> self.models[id].id == id
        &&& forall|k: int| 0 <= k < self.objects.len() ==> (#[trigger] self.objects[k]).id == k
        &&& forall|id: usize, k: int|
            self.instances.dom().contains(id) && 0 <= k < self.instances[id].len() ==> {
                let handle = #[trigger] self.instances[id][k];
                &&& handle < self.objects.len()
                &&& self.objects[handle as int].model_id == id
                &&& self.objects[handle as int].instance_id == k
            }
    }
}

/// The scene on the CPU side: models by handle, and the objects that instantiate them.
pub struct Manager {
    index_driver: IndexDriver,
    models: Vec<Model>,
    model_instances: Vec<Vec<usize>>,
    objects: Vec<Object>,
}

/// Whether `models` holds a model with the handle `model_id`.
spec fn holds(models: Seq<Model>, model_id: usize) -> bool {
    exists|i: int| 0 <= i < models.len() && (#[trigger] models[i]).id == model_id
}

/// The place in `models` of the model with the handle `model_id`.
spec fn place(models: Seq<Model>, model_id: usize) -> int {
    choose|i: int| 0 <= i < models.len() && (#[trigger] models[i]).id == model_id
}

spec fn distinct(models: Seq<Model>) -> bool {
    forall|i: int, j: int|
        0 <= i < j < models.len() ==> (#[trigger] models[i]).id != (#[trigger] models[j]).id
}

proof fn lemma_place(models: Seq<Model>, i: int)
    requires
        distinct(models),
        0 <= i < models.len(),
    ensures
        holds(models, models[i].id),
        place(models, models[i].id) == i,
{
    let chosen = place(models, models[i].id);
    assert(models[i].id == models[i].id);
    if chosen < i {
        assert(models[chosen].id != models[i].id);
    } else if i < chosen {
        assert(models[i].id != models[chosen].id);
    }
}

impl View for Manager {
    type V = SceneView;

    closed spec fn view(&self) -> SceneView {
        SceneView {
            model_ids: Seq::new(self.models@.len(), |i: int| self.models@[i].id),
            models: Map::new(
                |id: usize| holds(self.models@, id),
                |id: usize| self.models@[place(self.models@, id)],
            ),
            instances: Map::new(
                |id: usize| holds(self.models@, id),
                |id: usize| self.model_instances@[place(self.models@, id)]@,
            ),
            objects: self.objects@,
        }
    }
}

impl Manager {
    /// The invariant of the scene, and the next object handle is the number of objects.
    pub closed spec fn wf(&self) -> bool {
        &&& self@.wf()
        &&& distinct(self.models@)
        &&& self.model_instances@.len() == self.models@.len()
        &&& self.index_driver.next() == self.objects@.len()
    }

    /// A well-formed manager holds a well-formed scene.
    pub proof fn lemma_wf_view(&self)
        requires
            self.wf(),
        ensures
            self@.wf(),
    {
    }

    proof fn lemma_establish(&self)
        requires
            distinct(self.models@),
            self.model_instances@.len() == self.models@.len(),
            self.index_driver.next() == self.objects@.len(),
            forall|k: int| 0 <= k < self.objects@.len() ==> (#[trigger] self.objects@[k]).id == k,
            forall|i: int, k: int|
                0 <= i < self.models@.len() && 0 <= k < self.model_instances@[i]@.len() ==> {
                    let handle = #[trigger] self.model_instances@[i]@[k];
                    &&& handle < self.objects@.len()
                    &&& self.objects@[handle as int].model_id == self.models@[i].id
                    &&& self.objects@[handle as int].instance_id == k
                },
        ensures
            self.wf(),
    {
        let v = self@;
        assert forall|i: int, j: int| 0 <= i < j < v.model_ids.len() implies v.model_ids[i]
            != v.model_ids[j] by {
            assert(self.models@[i].id != self.models@[j].id);
        }
        assert forall|id: usize| v.model_ids.contains(id) <==> holds(self.models@, id) by {
            if v.model_ids.contains(id) {
                let i = choose|i: int| 0 <= i < v.model_ids.len() && v.model_ids[i] == id;
                assert(self.models@[i].id == id);
            }
            if holds(self.models@, id) {
                let i = place(self.models@, id);
                assert(v.model_ids[i] == id);
            }
        }
        assert forall|id: usize, k: int|
            v.instances.dom().contains(id) && 0 <= k < v.instances[id].len() implies {
            let handle = #[trigger] v.instances[id][k];
            &&& handle < v.objects.len()
            &&& v.objects[handle as int].model_id == id
            &&& v.objects[handle as int].instance_id == k
        } by {
            let i = place(self.models@, id);
            assert(self.model_instances@[i]@[k] == v.instances[id][k]);
        }
    }

    pub fn new() -> (manager: Manager)
        ensures
            manager.wf(),
            manager@.model_ids == Seq::<usize>::empty(),
            manager@.models == Map::<usize, Model>::empty(),
            manager@.instances == Map::<usize, Seq<usize>>::empty(),
            manager@.objects == Seq::<Object>::empty(),
    {
        let manager = Manager {
            index_driver: IndexDriver::new(),
            models: Vec::new(),
            model_instances: Vec::new(),
            objects: Vec::new(),
        };
        proof {
            manager.lemma_establish();
            assert(manager@.model_ids =~= Seq::<usize>::empty());
            assert(manager@.models =~= Map::<usize, Model>::empty());
            assert(manager@.instances =~= Map::<usize, Seq<usize>>::empty());
        }
        manager
    }

    fn find(&self, model_id: usize) -> (found: Option<usize>)
        requires
            self.wf(),
        ensures
            match found {
                Some(i) => self@.knows(model_id) && i == place(self.models@, model_id) && i
                    < self.models@.len() && self.models@[i as int].id == model_id,
                None => !self@.knows(model_id),
            },
    {
        let mut i: usize = 0;
        while i < self.models.len()
            invariant
                i <= self.models@.len(),
                self.wf(),
                forall|j: int| 0 <= j < i ==> (#[trigger] self.models@[j]).id != model_id,
            decreases self.models@.len() - i,
        {
            if self.models[i].id == model_id {
                proof {
                    lemma_place(self.models@, i as int);
                }
                return Some(i);
            }
            i = i + 1;
        }
        None
    }

    /// Adds `model` under its own handle, which is returned. A model that was added under
    /// that handle before is replaced, and has no instances any more.
    pub fn add_model(&mut self, model: Model) -> (model_id: usize)
        requires
            old(self).wf(),
        ensures
            final(self).wf(),
            model_id == model.id,
            final(self)@.objects == old(self)@.objects,
            final(self)@.models == old(self)@.models.insert(model_id, model),
            final(self)@.instances == old(self)@.instances.insert(model_id, Seq::<usize>::empty()),
            final(self)@.model_ids == if old(self)@.knows(model_id) {
                old(self)@.model_ids
            } else {
                old(self)@.model_ids.push(model_id)
            },
    {
        let model_id = model.id;
        let found = self.find(model_id);
        let ghost before = *self;
        match found {
            Some(i) => {
                self.models[i] = model;
                self.model_instances[i] = Vec::new();
                proof {
                    assert forall|a: int, b: int| 0 <= a < b < self.models@.len() implies (
                    #[trigger] self.models@[a]).id != (#[trigger] self.models@[b]).id by {
                        assert(before.models@[a].id != before.models@[b].id);
                    }
                    assert forall|id: usize| holds(self.models@, id) == holds(before.models@, id)
                        && (holds(self.models@, id) ==> place(self.models@, id) == place(
                        before.models@,
                        id,
                    )) by {
                        if holds(before.models@, id) {
                            let j = place(before.models@, id);
                            assert(self.models@[j].id == id);
                            lemma_place(self.models@, j);
                        }
                        if holds(self.models@, id) {
                            let j = place(self.models@, id);
                            assert(before.models@[j].id == id);
                            lemma_place(before.models@, j);
                        }
                    }
                }
            },
            None => {
                self.models.push(model);
                self.model_instances.push(Vec::new());
                proof {
                    let n = before.models@.len() as int;
                    assert forall|a: int, b: int| 0 <= a < b < self.models@.len() implies (
                    #[trigger] self.models@[a]).id != (#[trigger] self.models@[b]).id by {
                        if b < n {
                            assert(before.models@[a].id != before.models@[b].id);
                        } else {
                            assert(before.models@[a].id == self.models@[a].id);
                            assert(!holds(before.models@, model_id));
                        }
                    }
                    lemma_place(self.models@, n);
                    assert forall|id: usize|
                        id != model_id implies holds(self.models@, id) == holds(
                        before.models@,
                        id,
                    ) && (holds(self.models@, id) ==> place(self.models@, id) == place(
                        before.models@,
                        id,
                    )) by {
                        if holds(before.models@, id) {
                            let j = place(before.models@, id);
                            assert(self.models@[j].id == id);
                            lemma_place(self.models@, j);
                        }
                        if holds(self.models@, id) {
                            let j = place(self.models@, id);
                            assert(before.models@[j].id == id);
                            lemma_place(before.models@, j);
                        }
                    }
                }
            },
        }
        proof {
            let i = place(self.models@, model_id);
            assert(holds(self.models@, model_id));
            assert(self.models@[i] == model);
            assert(self.model_instances@[i]@ =~= Seq::<usize>::empty());
            assert forall|a: int, k: int|
                0 <= a < self.models@.len() && 0 <= k < self.model_instances@[a]@.len() implies {
                let handle = #[trigger] self.model_instances@[a]@[k];
                &&& handle < self.objects@.len()
                &&& self.objects@[handle as int].model_id == self.models@[a].id
                &&& self.objects@[handle as int].instance_id == k
            } by {
                assert(a != i);
                let id = before.models@[a].id;
                lemma_place(before.models@, a);
                assert(before@.instances.dom().contains(id));
                assert(before@.instances[id][k] == before.model_instances@[a]@[k]);
            }
            assert forall|k: int| 0 <= k < self.objects@.len() implies (
            #[trigger] self.objects@[k]).id == k by {
                assert(before@.objects[k].id == k);
            }
            self.lemma_establish();
            assert(self@.models =~= before@.models.insert(model_id, model));
            assert(self@.instances =~= before@.instances.insert(model_id, Seq::<usize>::empty()));
            if before@.knows(model_id) {
                assert(self@.model_ids =~= before@.model_ids);
            } else {
                assert(self@.model_ids =~= before@.model_ids.push(model_id));
            }
        }
        model_id
    }

    /// Whether a model was added under `model_id`.
    pub fn knows(&self, model_id: usize) -> (known: bool)
        requires
            self.wf(),
        ensures
            known == self@.knows(model_id),
    {
        self.find(model_id).is_some()
    }

    /// The model added under `model_id`.
    pub fn get_model(&self, model_id: usize) -> (model: &Model)
        requires
            self.wf(),
            self@.knows(model_id),
        ensures
            *model == self@.models[model_id],
    {
        let found = self.find(model_id);
        &self.models[found.unwrap()]
    }

    /// The handles of all models, in the order in which they were first added.
    pub fn get_model_ids(&self) -> (ids: Vec<usize>)
        requires
            self.wf(),
        ensures
            ids@ == self@.model_ids,
    {
        let mut ids: Vec<usize> = Vec::new();
        let mut i: usize = 0;
        while i < self.models.len()
            invariant
                i <= self.models@.len(),
                ids@ == self@.model_ids.take(i as int),
            decreases self.models@.len() - i,
        {
            ids.push(self.models[i].id);
            proof {
                assert(ids@ =~= self@.model_ids.take(i + 1));
            }
            i = i + 1;
        }
        proof {
            assert(self@.model_ids.take(i as int) =~= self@.model_ids);
        }
        ids
    }

    /// Creates an object of the model `model_id` and returns its handle. Its slot among the
    /// instances of the model is the number of objects that the model had.
    pub fn create_object(&mut self, model_id: usize, transform: Transform) -> (id: usize)
        requires
            old(self).wf(),
            old(self)@.knows(model_id),
            old(self)@.objects.len() < usize::MAX,
        ensures
            final(self).wf(),
            id == old(self)@.objects.len(),
            final(self)@.objects == old(self)@.objects.push(
                Object {
                    id,
                    model_id,
                    instance_id: old(self)@.instances[model_id].len() as usize,
                    transform,
                },
            ),
            final(self)@.instances == old(self)@.instances.insert(
                model_id,
                old(self)@.instances[model_id].push(id),
            ),
            final(self)@.models == old(self)@.models,
            final(self)@.model_ids == old(self)@.model_ids,
    {
        let ghost before = *self;
        let found = self.find(model_id);
        let i: usize = found.unwrap();
        let id: usize = self.index_driver.next_id();
        let instance_id: usize = self.model_instances[i].len();
        let object = Object { id, model_id, instance_id, transform };
        self.objects.push(object);
        self.model_instances[i].push(id);
        proof {
            assert(self.models@ == before.models@);
            assert(self.model_instances@[i as int]@ == before.model_instances@[i as int]@.push(id));
            assert forall|k: int| 0 <= k < self.objects@.len() implies (
            #[trigger] self.objects@[k]).id == k by {
                if k < before.objects@.len() {
                    assert(before@.objects[k].id == k);
                }
            }
            assert forall|a: int, k: int|
                0 <= a < self.models@.len() && 0 <= k < self.model_instances@[a]@.len() implies {
                let handle = #[trigger] self.model_instances@[a]@[k];
                &&& handle < self.objects@.len()
                &&& self.objects@[handle as int].model_id == self.models@[a].id
                &&& self.objects@[handle as int].instance_id == k
            } by {
                let owner = before.models@[a].id;
                lemma_place(before.models@, a);
                assert(before@.instances.dom().contains(owner));
                if a != i || k < before.model_instances@[a]@.len() {
                    assert(self.model_instances@[a]@[k] == before.model_instances@[a]@[k]);
                    assert(before@.instances[owner][k] == before.model_instances@[a]@[k]);
                }
            }
            self.lemma_establish();
            assert(self@.instances =~= before@.instances.insert(
                model_id,
                before@.instances[model_id].push(id),
            ));
            assert(self@.models =~= before@.models);
            assert(self@.model_ids =~= before@.model_ids);
        }
        id
    }

    /// The objects of the model `model_id`, in the order of their creation.
    pub fn get_model_instances(&self, model_id: usize) -> (objects: Vec<&Object>)
        requires
            self.wf(),
            self@.knows(model_id),
        ensures
            objects@.len() == self@.instances[model_id].len(),
            forall|k: int|
                0 <= k < objects@.len() ==> *(#[trigger] objects@[k])
                    == self@.objects[self@.instances[model_id][k] as int],
    {
        let found = self.find(model_id);
        let i: usize = found.unwrap();
        let handles = &self.model_instances[i];
        proof {
            assert(self@.instances[model_id] == handles@);
        }
        let mut objects: Vec<&Object> = Vec::new();
        let mut k: usize = 0;
        while k < handles.len()
            invariant
                k <= handles@.len(),
                self.wf(),
                self@.knows(model_id),
                self@.instances[model_id] == handles@,
                objects@.len() == k,
                forall|j: int|
                    0 <= j < k ==> *(#[trigger] objects@[j]) == self@.objects[handles@[j] as int],
            decreases handles@.len() - k,
        {
            proof {
                assert(self@.instances.dom().contains(model_id));
                assert(self@.instances[model_id][k as int] < self@.objects.len());
            }
            objects.push(&self.objects[handles[k]]);
            k = k + 1;
        }
        objects
    }

    /// The objects with the handles `ids`, in that order.
    pub fn get_objects_by_ids(&self, ids: &Vec<usize>) -> (objects: Vec<&Object>)
        requires
            self.wf(),
            forall|k: int| 0 <= k < ids@.len() ==> #[trigger] ids@[k] < self@.objects.len(),
        ensures
            objects@.len() == ids@.len(),
            forall|k: int|
                0 <= k < objects@.len()
                    ==> *(#[trigger] objects@[k]) == self@.objects[ids@[k] as int],
    {
        let mut objects: Vec<&Object> = Vec::new();
        let mut k: usize = 0;
        while k < ids.len()
            invariant
                k <= ids@.len(),
                forall|j: int| 0 <= j < ids@.len() ==> #[trigger] ids@[j] < self.objects@.len(),
                self@.objects == self.objects@,
                objects@.len() == k,
                forall|j: int|
                    0 <= j < k ==> *(#[trigger] objects@[j]) == self.objects@[ids@[j] as int],
            decreases ids@.len() - k,
        {
            objects.push(&self.objects[ids[k]]);
            k = k + 1;
        }
        objects
    }

    /// All objects; the handle of each is its place.
    pub fn get_objects(&self) -> (objects: &Vec<Object>)
        ensures
            objects@ == self@.objects,
    {
        &self.objects
    }

    /// Gives the object `id` the transform `transform`.
    pub fn set_transform(&mut self, id: usize, transform: Transform)
        requires
            old(self).wf(),
            id < old(self)@.objects.len(),
        ensures
            final(self).wf(),
            final(self)@.objects == old(self)@.objects.update(
                id as int,
                Object { transform, ..old(self)@.objects[id as int] },
            ),
            final(self)@.instances == old(self)@.instances,
            final(self)@.models == old(self)@.models,
            final(self)@.model_ids == old(self)@.model_ids,
    {
        let ghost before = *self;
        let object = self.objects[id];
        self.objects[id] = Object { transform, ..object };
        proof {
            assert(self@.objects =~= before@.objects.update(
                id as int,
                Object { transform, ..before@.objects[id as int] },
            ));
            assert forall|k: int| 0 <= k < self.objects@.len() implies (
            #[trigger] self.objects@[k]).id == k by {
                assert(before@.objects[k].id == k);
            }
            assert forall|a: int, k: int|
                0 <= a < self.models@.len() && 0 <= k < self.model_instances@[a]@.len() implies {
                let handle = #[trigger] self.model_instances@[a]@[k];
                &&& handle < self.objects@.len()
                &&& self.objects@[handle as int].model_id == self.models@[a].id
                &&& self.objects@[handle as int].instance_id == k
            } by {
                let owner = before.models@[a].id;
                lemma_place(before.models@, a);
                assert(before@.instances.dom().contains(owner));
                assert(before@.instances[owner][k] == before.model_instances@[a]@[k]);
            }
            self.lemma_establish();
            assert(self@.instances =~= before@.instances);
            assert(self@.models =~= before@.models);
            assert(self@.model_ids =~= before@.model_ids);
        }
    }
}

} // verus!
