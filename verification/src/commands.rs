//! The queue of engine commands that input handlers fill and the engine drains.
use vstd::prelude::*;

verus! {

/// One request to the engine. Windows are named by their numeric id; `H`
/// is an input handler, `A` the attributes of a new window, `L` a render
/// layer and `F` an operation on a render layer.
pub enum Command<H, A, L, F> {
    CloseWindow(u64),
    /// Stops the engine without calling `exit` on any input handler.
    Exit,
    NewWindow(H, A),
    AddRenderLayer(u64, L),
    RemoveRenderLayer(u64, usize),
    /// Clone layer `index` of the first window and deliver it to the second.
    GetRenderLayerClone(u64, usize, u64),
    ModifyRenderLayer(u64, usize, F),
}

/// What the engine hands back to a window's logic.
pub enum Request<L> {
    RenderLayerClone(L),
}

/// A first-in first-out list of commands.
pub struct Commands<H, A, L, F> {
    pub queue: Vec<Command<H, A, L, F>>,
}

impl<H, A, L, F> Commands<H, A, L, F> {
    /// An empty queue.
    pub fn new() -> (res: Self)
        ensures
            res.queue@ == Seq::<Command<H, A, L, F>>::empty(),
    {
        Commands { queue: Vec::new() }
    }

    /// Queues closing the window `id`.
    pub fn close_window(&mut self, id: u64)
        ensures
            final(self).queue@ == old(self).queue@.push(Command::CloseWindow(id)),
    {
        self.queue.push(Command::CloseWindow(id));
    }

    /// Queues stopping the engine.
    pub fn exit(&mut self)
        ensures
            final(self).queue@ == old(self).queue@.push(Command::Exit),
    {
        self.queue.push(Command::Exit);
    }

    /// Queues opening a new window driven by `input_handler`.
    pub fn new_window(&mut self, input_handler: H, window_attributes: A)
        ensures
            final(self).queue@ == old(self).queue@.push(Command::NewWindow(input_handler, window_attributes)),
    {
        self.queue.push(Command::NewWindow(input_handler, window_attributes));
    }

    /// Queues adding `layer` on top of the layers of window `window_id`.
    pub fn add_render_layer(&mut self, window_id: u64, layer: L)
        ensures
            final(self).queue@ == old(self).queue@.push(Command::AddRenderLayer(window_id, layer)),
    {
        self.queue.push(Command::AddRenderLayer(window_id, layer));
    }

    /// Queues removing layer `index` of window `window_id`.
    pub fn remove_render_layer(&mut self, window_id: u64, index: usize)
        ensures
            final(self).queue@ == old(self).queue@.push(Command::RemoveRenderLayer(window_id, index)),
    {
        self.queue.push(Command::RemoveRenderLayer(window_id, index));
    }

    /// Queues applying `op` to layer `index` of window `window_id`.
    pub fn modify_render_layer(&mut self, window_id: u64, index: usize, op: F)
        ensures
            final(self).queue@ == old(self).queue@.push(Command::ModifyRenderLayer(window_id, index, op)),
    {
        self.queue.push(Command::ModifyRenderLayer(window_id, index, op));
    }

    /// Queues delivering a clone of layer `index_to_clone` of window
    /// `to_clone` to window `to_deliver`.
    pub fn get_render_layer_clone(&mut self, to_clone: u64, index_to_clone: usize, to_deliver: u64)
        ensures
            final(self).queue@ == old(self).queue@.push(
                Command::GetRenderLayerClone(to_clone, index_to_clone, to_deliver),
            ),
    {
        self.queue.push(Command::GetRenderLayerClone(to_clone, index_to_clone, to_deliver));
    }

    /// Moves every command of `other`, in order, behind those of `self`;
    /// `other` is left empty.
    pub fn append(&mut self, other: &mut Self)
        ensures
            final(self).queue@ == old(self).queue@ + old(other).queue@,
            final(other).queue@ == Seq::<Command<H, A, L, F>>::empty(),
    {
        self.queue.append(&mut other.queue);
    }

    /// Takes the oldest command off the queue.
    pub fn next_command(&mut self) -> (res: Option<Command<H, A, L, F>>)
        ensures
            old(self).queue@.len() == 0 ==> res is None && final(self).queue@ == old(self).queue@,
            old(self).queue@.len() > 0 ==> res == Some(old(self).queue@[0])
                && final(self).queue@ == old(self).queue@.drop_first(),
    {
        if self.queue.len() == 0 {
            None
        } else {
            let c = self.queue.remove(0);
            assert(self.queue@ =~= old(self).queue@.drop_first());
            Some(c)
        }
    }
}

} // verus!
