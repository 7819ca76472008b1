//! The render objects of a layer, found by name, and the decisions a layer
//! makes before it draws.
use vstd::prelude::*;

verus! {

/// `i` is the first position whose name is `name`.
pub open spec fn is_first_name(names: Seq<String>, name: Seq<char>, i: int) -> bool {
    &&& 0 <= i < names.len()
    &&& names[i]@ == name
    &&& forall|j: int| 0 <= j < i ==> (#[trigger] names[j])@ != name
}

/// No position has the name `name`.
pub open spec fn lacks_name(names: Seq<String>, name: Seq<char>) -> bool {
    forall|j: int| 0 <= j < names.len() ==> (#[trigger] names[j])@ != name
}

/// The first position whose name is `name`.
pub fn find_name(names: &Vec<String>, name: &String) -> (res: Option<usize>)
    ensures
        match res {
            Some(i) => is_first_name(names@, name@, i as int),
            None => lacks_name(names@, name@),
        },
{
    let mut i: usize = 0;
    while i < names.len()
        invariant
            i <= names@.len(),
            forall|j: int| 0 <= j < i ==> (#[trigger] names@[j])@ != name@,
        decreases names@.len() - i,
    {
        if names[i] == *name {
            return Some(i);
        }
        i = i + 1;
    }
    None
}

/// The vertices of a layer have to be gathered again: it has no vertex
/// buffer yet, its children changed, one of them reported new vertices, or
/// the atlas was rebuilt.
pub open spec fn rebuild_needed(has_vertex_buffer: bool, children_changed: bool, any_object_changed: bool, atlas_rebuilt: bool) -> bool {
    !has_vertex_buffer || children_changed || any_object_changed || atlas_rebuilt
}

/// What to do with a layer's vertex buffer after gathering vertices.
#[derive(Copy, Clone, Debug, PartialEq, Eq, Structural)]
pub enum BufferAction {
    /// No vertices: drop the buffer.
    Drop,
    /// Vertices but no buffer yet: create one.
    Create,
    /// Overwrite the existing buffer.
    Write,
}

/// Chooses what to do with the vertex buffer.
pub fn vertex_buffer_action(vertices_empty: bool, has_vertex_buffer: bool) -> (res: BufferAction)
    ensures
        vertices_empty ==> res == BufferAction::Drop,
        !vertices_empty && !has_vertex_buffer ==> res == BufferAction::Create,
        !vertices_empty && has_vertex_buffer ==> res == BufferAction::Write,
{
    if vertices_empty {
        BufferAction::Drop
    } else if !has_vertex_buffer {
        BufferAction::Create
    } else {
        BufferAction::Write
    }
}

/// The render objects of a layer, in drawing order, and whether the list
/// changed since the layer last drew.
#[derive(Clone, Debug)]
pub struct Children<T> {
    pub to_render: Vec<T>,
    pub number_of_children_changed: bool,
}

impl<T> Children<T> {
    /// No children, no change.
    pub fn new() -> (res: Self)
        ensures
            res.to_render@ == Seq::<T>::empty(),
            !res.number_of_children_changed,
    {
        Children { to_render: Vec::new(), number_of_children_changed: false }
    }

    /// Adds `child` last.
    pub fn add_child(&mut self, child: T)
        ensures
            final(self).to_render@ == old(self).to_render@.push(child),
            final(self).number_of_children_changed,
    {
        self.to_render.push(child);
        self.number_of_children_changed = true;
    }

    /// Removes the first child whose name is `name`; `names` holds the
    /// children's names in order. The list counts as changed either way.
    pub fn remove_child(&mut self, names: &Vec<String>, name: String)
        requires
            names@.len() == old(self).to_render@.len(),
        ensures
            final(self).number_of_children_changed,
            lacks_name(names@, name@) ==> final(self).to_render@ == old(self).to_render@,
            forall|i: int| #[trigger] is_first_name(names@, name@, i)
                ==> final(self).to_render@ == old(self).to_render@.remove(i),
    {
        self.number_of_children_changed = true;
        match find_name(names, &name) {
            Some(pos) => {
                let ghost p = pos as int;
                assert forall|i: int| #[trigger] is_first_name(names@, name@, i) implies i == p by {
                    if i < p {
                        assert(names@[i]@ != name@);
                    }
                    if i > p {
                        assert(names@[p]@ != name@);
                    }
                }
                self.to_render.remove(pos);
            },
            None => {},
        }
    }

    /// The first child whose name is `name`; `names` holds the children's
    /// names in order.
    pub fn get_child(&self, names: &Vec<String>, name: String) -> (res: Option<&T>)
        requires
            names@.len() == self.to_render@.len(),
        ensures
            lacks_name(names@, name@) ==> res is None,
            forall|i: int| #[trigger] is_first_name(names@, name@, i) ==> res == Some(&self.to_render@[i]),
    {
        match find_name(names, &name) {
            Some(pos) => {
                let ghost p = pos as int;
                assert forall|i: int| #[trigger] is_first_name(names@, name@, i) implies i == p by {
                    if i < p {
                        assert(names@[i]@ != name@);
                    }
                    if i > p {
                        assert(names@[p]@ != name@);
                    }
                }
                Some(&self.to_render[pos])
            },
            None => None,
        }
    }

    /// Position of the first child whose name is `name`; `names` holds the
    /// children's names in order.
    pub fn position_of(&self, names: &Vec<String>, name: String) -> (res: Option<usize>)
        requires
            names@.len() == self.to_render@.len(),
        ensures
            match res {
                Some(i) => is_first_name(names@, name@, i as int) && i < self.to_render@.len(),
                None => lacks_name(names@, name@),
            },
    {
        find_name(names, &name)
    }

    /// Reads and clears the change mark, and says whether the layer's
    /// vertices have to be gathered again.
    pub fn plan_vertices(&mut self, has_vertex_buffer: bool, any_object_changed: bool, atlas_rebuilt: bool) -> (res: bool)
        ensures
            res == rebuild_needed(
                has_vertex_buffer,
                old(self).number_of_children_changed,
                any_object_changed,
                atlas_rebuilt,
            ),
            res == (!has_vertex_buffer || old(self).number_of_children_changed || any_object_changed
                || atlas_rebuilt),
            !final(self).number_of_children_changed,
            final(self).to_render@ == old(self).to_render@,
    {
        let need = !has_vertex_buffer || self.number_of_children_changed || any_object_changed;
        self.number_of_children_changed = false;
        need || atlas_rebuilt
    }
}

/// The layer gathers its vertices again for each of its reasons, whatever
/// the others are: a missing vertex buffer, changed children, an object with
/// new vertices, or a rebuilt atlas; and only for one of them.
pub proof fn lemma_rebuild_reasons(has_vertex_buffer: bool, children_changed: bool, any_object_changed: bool, atlas_rebuilt: bool)
    ensures
        !has_vertex_buffer ==> rebuild_needed(has_vertex_buffer, children_changed, any_object_changed, atlas_rebuilt),
        children_changed ==> rebuild_needed(has_vertex_buffer, children_changed, any_object_changed, atlas_rebuilt),
        any_object_changed ==> rebuild_needed(has_vertex_buffer, children_changed, any_object_changed, atlas_rebuilt),
        atlas_rebuilt ==> rebuild_needed(has_vertex_buffer, children_changed, any_object_changed, atlas_rebuilt),
        has_vertex_buffer && !children_changed && !any_object_changed && !atlas_rebuilt ==> !rebuild_needed(
            has_vertex_buffer,
            children_changed,
            any_object_changed,
            atlas_rebuilt,
        ),
{
}

} // verus!
