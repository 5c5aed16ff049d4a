//! The objects placed in the world. Spawning an object records how it is
//! drawn, keeps its models on a list to prepare for the GPU, and stores it
//! under a new handle; where it stands in the world is kept beside it as an
//! opaque placement.
use vstd::prelude::*;
use crate::storage::{Handle, Storage};

verus! {

/// How an object of some object type is made up: scenery and structures draw
/// one model, bipeds one model built from a body definition, and every other
/// type one model of its own for now.
#[derive(Clone, Copy, Debug, PartialEq, Eq, Structural)]
pub enum ObjectClass {
    Scenery,
    Bipedal,
    Other,
}

/// What an object draws.
#[derive(Clone, Copy, Debug, PartialEq, Eq, Structural)]
pub enum ObjectData {
    Scenery { model: usize },
    Biped { model: usize },
    SingleModel { model: usize },
}

/// The data of an object of `class` drawn with `model`.
pub open spec fn object_data(class: ObjectClass, model: usize) -> ObjectData {
    match class {
        ObjectClass::Scenery => ObjectData::Scenery { model },
        ObjectClass::Bipedal => ObjectData::Biped { model },
        ObjectClass::Other => ObjectData::SingleModel { model },
    }
}

/// The model an object draws.
pub open spec fn model_of_data(d: ObjectData) -> usize {
    match d {
        ObjectData::Scenery { model } => model,
        ObjectData::Biped { model } => model,
        ObjectData::SingleModel { model } => model,
    }
}

impl ObjectData {
    /// The model the object draws, whatever it is.
    pub fn model(&self) -> (r: usize)
        ensures
            r == model_of_data(*self),
    {
        match *self {
            ObjectData::Scenery { model } => model,
            ObjectData::Biped { model } => model,
            ObjectData::SingleModel { model } => model,
        }
    }
}

/// An object: where it stands and what it draws.
pub struct Object<P> {
    pub placement: P,
    pub data: ObjectData,
}

/// All objects of the world, and the models spawned since they were last prepared.
pub struct Objects<P> {
    objects: Storage<Object<P>>,
    models_to_prepare: Vec<usize>,
}

impl<P> Objects<P> {
    /// The objects, by handle.
    pub closed spec fn objects(&self) -> Seq<Object<P>> {
        self.objects.view()
    }

    /// The models waiting to be prepared, in the order they were spawned.
    pub closed spec fn to_prepare(&self) -> Seq<usize> {
        self.models_to_prepare@
    }

    /// No objects, nothing to prepare.
    pub fn new() -> (r: Self)
        ensures
            r.objects() == Seq::<Object<P>>::empty(),
            r.to_prepare() == Seq::<usize>::empty(),
    {
        Objects { objects: Storage::new(), models_to_prepare: Vec::new() }
    }

    /// Spawn an object of `class` at `placement`, drawn with the loaded `model`:
    /// the model is queued for preparation and the object gets the next handle.
    pub fn spawn(&mut self, placement: P, class: ObjectClass, model: usize) -> (h: Handle<Object<P>>)
        ensures
            h.id() == old(self).objects().len(),
            final(self).objects() == old(self).objects().push(Object { placement, data: object_data(class, model) }),
            final(self).to_prepare() == old(self).to_prepare().push(model),
    {
        let data = match class {
            ObjectClass::Scenery => ObjectData::Scenery { model },
            ObjectClass::Bipedal => ObjectData::Biped { model },
            ObjectClass::Other => ObjectData::SingleModel { model },
        };
        self.models_to_prepare.push(model);
        self.objects.insert(Object { placement, data })
    }

    /// The object of `handle`, if there is one.
    pub fn get(&self, handle: Handle<Object<P>>) -> (r: Option<&Object<P>>)
        ensures
            0 <= handle.id() < self.objects().len() ==> r == Some(&self.objects()[handle.id()]),
            !(0 <= handle.id() < self.objects().len()) ==> r is None,
    {
        self.objects.get(handle)
    }

    /// Take the models spawned since the last call, to prepare them for the
    /// GPU; the list is left empty.
    pub fn take_models_to_prepare(&mut self) -> (r: Vec<usize>)
        ensures
            r@ == old(self).to_prepare(),
            final(self).to_prepare() == Seq::<usize>::empty(),
            final(self).objects() == old(self).objects(),
    {
        let mut models: Vec<usize> = Vec::new();
        core::mem::swap(&mut self.models_to_prepare, &mut models);
        models
    }
}

/// What an object of the newer kind draws: scenery has a model and a
/// destroyed model, every other object one model.
#[derive(Clone, Copy, Debug, PartialEq, Eq, Structural)]
pub enum NewObjectData {
    Scenery { model: usize, model_des: usize },
    SingleModel { model: usize },
}

/// The models of an object, in the order they are prepared.
pub open spec fn models_of(d: NewObjectData) -> Seq<usize> {
    match d {
        NewObjectData::Scenery { model, model_des } => seq![model, model_des],
        NewObjectData::SingleModel { model } => seq![model],
    }
}

/// An object of the newer kind: where it stands and what it draws.
pub struct NewObject<P> {
    pub placement: P,
    pub data: NewObjectData,
}

impl<P> NewObject<P> {
    /// The model to draw the object with: its (intact) model.
    pub fn model_to_render(&self) -> (r: Option<usize>)
        ensures
            r == Some(models_of(self.data)[0]),
    {
        Some(match self.data {
            NewObjectData::Scenery { model, .. } => model,
            NewObjectData::SingleModel { model } => model,
        })
    }
}

/// All objects of the newer kind, and the models spawned since they were last prepared.
pub struct NewObjects<P> {
    objects: Storage<NewObject<P>>,
    models_to_prepare: Vec<usize>,
}

impl<P> NewObjects<P> {
    /// The objects, by handle.
    pub closed spec fn objects(&self) -> Seq<NewObject<P>> {
        self.objects.view()
    }

    /// The models waiting to be prepared, in the order they were spawned.
    pub closed spec fn to_prepare(&self) -> Seq<usize> {
        self.models_to_prepare@
    }

    /// No objects, nothing to prepare.
    pub fn new() -> (r: Self)
        ensures
            r.objects() == Seq::<NewObject<P>>::empty(),
            r.to_prepare() == Seq::<usize>::empty(),
    {
        NewObjects { objects: Storage::new(), models_to_prepare: Vec::new() }
    }

    /// Spawn an object at `placement` drawing `data`: its models are queued for
    /// preparation and the object gets the next handle.
    pub fn spawn(&mut self, placement: P, data: NewObjectData) -> (h: Handle<NewObject<P>>)
        ensures
            h.id() == old(self).objects().len(),
            final(self).objects() == old(self).objects().push(NewObject { placement, data }),
            final(self).to_prepare() == old(self).to_prepare() + models_of(data),
    {
        match data {
            NewObjectData::Scenery { model, model_des } => {
                self.models_to_prepare.push(model);
                self.models_to_prepare.push(model_des);
            },
            NewObjectData::SingleModel { model } => {
                self.models_to_prepare.push(model);
            },
        }
        self.objects.insert(NewObject { placement, data })
    }

    /// The object of `handle`, if there is one.
    pub fn get(&self, handle: Handle<NewObject<P>>) -> (r: Option<&NewObject<P>>)
        ensures
            0 <= handle.id() < self.objects().len() ==> r == Some(&self.objects()[handle.id()]),
            !(0 <= handle.id() < self.objects().len()) ==> r is None,
    {
        self.objects.get(handle)
    }

    /// Take the models spawned since the last call, to prepare them for the
    /// GPU; the list is left empty.
    pub fn take_models_to_prepare(&mut self) -> (r: Vec<usize>)
        ensures
            r@ == old(self).to_prepare(),
            final(self).to_prepare() == Seq::<usize>::empty(),
            final(self).objects() == old(self).objects(),
    {
        let mut models: Vec<usize> = Vec::new();
        core::mem::swap(&mut self.models_to_prepare, &mut models);
        models
    }
}

} // verus!
