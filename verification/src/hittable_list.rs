use vstd::prelude::*;

verus! {

/// The scene: an ordered list of objects. Hit testing and bounding boxes,
/// which compute in floating point, are provided by the objects' owner.
pub struct HittableList<O> {
    objects: Vec<O>,
}

impl<O> View for HittableList<O> {
    type V = Seq<O>;

    closed spec fn view(&self) -> Seq<O> {
        self.objects@
    }
}

impl<O> HittableList<O> {
    /// An empty scene.
    pub fn hittablelist() -> (world: HittableList<O>)
        ensures
            world@ == Seq::<O>::empty(),
    {
        HittableList { objects: Vec::new() }
    }

    /// Removes every object.
    pub fn clear(&mut self)
        ensures
            final(self)@ == Seq::<O>::empty(),
    {
        self.objects.clear();
    }

    /// Appends `ob` after the objects already in the scene.
    pub fn add(&mut self, ob: O)
        ensures
            final(self)@ == old(self)@.push(ob),
    {
        self.objects.push(ob);
    }

    /// The objects, in the order they were added.
    pub fn objects(&self) -> (r: &Vec<O>)
        ensures
            r@ == self@,
    {
        &self.objects
    }
}

} // verus!
