//! The update state of the two render objects of the example program.
use vstd::prelude::*;

verus! {

/// A fixed set of coloured triangles, produced once.
#[derive(Clone, Debug)]
pub struct VerticesTest {
    has_updated: bool,
}

impl VerticesTest {
    pub closed spec fn updated(self) -> bool {
        self.has_updated
    }

    /// An object whose vertices are still to be produced.
    pub fn new() -> (res: Box<Self>)
        ensures
            !res.updated(),
    {
        Box::new(VerticesTest { has_updated: false })
    }

    /// Whether the vertices still have to be produced.
    pub fn have_vertices_changed(&mut self) -> (res: bool)
        ensures
            res == !old(self).updated(),
            *final(self) == *old(self),
    {
        !self.has_updated
    }

    /// Records that the vertices were produced.
    pub fn mark_updated(&mut self)
        ensures
            final(self).updated(),
    {
        self.has_updated = true;
    }
}

/// A textured quad whose image is added to the atlas the first time its
/// vertices are produced.
#[derive(Clone, Debug)]
pub struct TextureTest {
    has_updated: bool,
    image_added: bool,
}

impl TextureTest {
    pub closed spec fn updated(self) -> bool {
        self.has_updated
    }

    pub closed spec fn added(self) -> bool {
        self.image_added
    }

    /// An object whose image and vertices are still to be produced.
    pub fn new() -> (res: Box<Self>)
        ensures
            !res.updated(),
            !res.added(),
    {
        Box::new(TextureTest { has_updated: false, image_added: false })
    }

    /// Whether the vertices still have to be produced.
    pub fn have_vertices_changed(&mut self) -> (res: bool)
        ensures
            res == !old(self).updated(),
            *final(self) == *old(self),
    {
        !self.has_updated
    }

    /// Whether the image still has to be added to the atlas; it counts as
    /// added from now on.
    pub fn take_image_to_add(&mut self) -> (res: bool)
        ensures
            res == !old(self).added(),
            final(self).added(),
            final(self).updated() == old(self).updated(),
    {
        if !self.image_added {
            self.image_added = true;
            true
        } else {
            false
        }
    }

    /// Records that the vertices were produced.
    pub fn mark_updated(&mut self)
        ensures
            final(self).updated(),
            final(self).added() == old(self).added(),
    {
        self.has_updated = true;
    }
}

} // verus!
