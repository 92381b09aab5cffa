use vstd::prelude::*;

verus! {

/// The scene's primitives beside a parallel material table: the
/// primitive with id `i` sits at index `i`, and its material at the
/// same index of the material list. Ids are assigned by the scene
/// builder and never move after construction.
pub struct World<P, M> {
    objects: Vec<P>,
    materials: Vec<M>,
}

impl<P, M> World<P, M> {
    pub closed spec fn spec_objects(&self) -> Seq<P> {
        self.objects@
    }

    pub closed spec fn spec_materials(&self) -> Seq<M> {
        self.materials@
    }

    /// One material for each primitive.
    pub open spec fn wf(&self) -> bool {
        self.spec_objects().len() == self.spec_materials().len()
    }

    pub fn new(objects: Vec<P>, materials: Vec<M>) -> (w: World<P, M>)
        requires
            objects@.len() == materials@.len(),
        ensures
            w.wf(),
            w.spec_objects() == objects@,
            w.spec_materials() == materials@,
    {
        World { objects, materials }
    }

    pub fn len(&self) -> (n: usize)
        ensures
            n == self.spec_objects().len(),
    {
        self.objects.len()
    }

    /// The primitive with the given id, beside its material.
    pub fn get(&self, index: usize) -> (r: (&P, &M))
        requires
            self.wf(),
            index < self.spec_objects().len(),
        ensures
            *r.0 == self.spec_objects()[index as int],
            *r.1 == self.spec_materials()[index as int],
    {
        (&self.objects[index], &self.materials[index])
    }
}

} // verus!
