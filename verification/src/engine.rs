//! The window table of the engine and what each command does to it.
use vstd::prelude::*;
use crate::commands::{Command, Request};

verus! {

/// One open window: its id, the platform object `W` that drives it, its
/// render layers, the requests waiting for its logic, and whether its logic
/// has been told to shut down.
pub struct WindowSlot<W, L> {
    pub window_id: u64,
    pub window: W,
    pub layers: Vec<L>,
    pub requests: Vec<Request<L>>,
    pub should_despawn: bool,
}

/// The windows of a running engine, in the order they were opened.
pub struct Engine<W, L> {
    pub windows: Vec<WindowSlot<W, L>>,
}

/// What is left for the caller after a command was applied to the table.
pub enum Outcome<H, A, F> {
    /// Nothing more to do.
    Done,
    /// Stop the event loop: the engine was asked to exit.
    ExitLoop,
    /// Stop the event loop: the last window was closed.
    AllWindowsClosed,
    /// Create, start and register a window driven by this handler.
    StartWindow(H, A),
    /// Apply the operation to layer `.1` of window slot `.0`.
    ModifyLayer(usize, usize, F),
}

/// `i` is the first slot whose window has id `id`.
pub open spec fn is_first_window<W, L>(windows: Seq<WindowSlot<W, L>>, id: u64, i: int) -> bool {
    &&& 0 <= i < windows.len()
    &&& windows[i].window_id == id
    &&& forall|j: int| 0 <= j < i ==> (#[trigger] windows[j]).window_id != id
}

/// Some slot holds a window with id `id`.
pub open spec fn has_window<W, L>(windows: Seq<WindowSlot<W, L>>, id: u64) -> bool {
    exists|i: int| 0 <= i < windows.len() && (#[trigger] windows[i]).window_id == id
}

/// The slot with its logic told to shut down.
pub open spec fn despawned<W, L>(s: WindowSlot<W, L>) -> WindowSlot<W, L> {
    WindowSlot {
        window_id: s.window_id,
        window: s.window,
        layers: s.layers,
        requests: s.requests,
        should_despawn: true,
    }
}

/// What closing the window `id` leaves of the table: every slot is told to
/// shut down and the slots of window `id` are dropped.
pub open spec fn after_close<W, L>(windows: Seq<WindowSlot<W, L>>, id: u64) -> Seq<WindowSlot<W, L>> {
    windows.map_values(|s: WindowSlot<W, L>| despawned(s)).filter(|s: WindowSlot<W, L>| s.window_id != id)
}

/// A command can be applied without panicking: removing a layer names an
/// existing layer of the window it finds.
pub open spec fn command_ok<W, L, H, A, F>(windows: Seq<WindowSlot<W, L>>, command: Command<H, A, L, F>) -> bool {
    match command {
        Command::RemoveRenderLayer(id, index) => forall|i: int|
            #[trigger] is_first_window(windows, id, i) ==> index < windows[i].layers@.len(),
        _ => true,
    }
}

/// `b` is `a` with only its layers possibly changed.
pub open spec fn same_but_layers<W, L>(a: WindowSlot<W, L>, b: WindowSlot<W, L>) -> bool {
    &&& a.window_id == b.window_id
    &&& a.window == b.window
    &&& a.requests@ == b.requests@
    &&& a.should_despawn == b.should_despawn
}

/// `b` is `a` with only its requests possibly changed.
pub open spec fn same_but_requests<W, L>(a: WindowSlot<W, L>, b: WindowSlot<W, L>) -> bool {
    &&& a.window_id == b.window_id
    &&& a.window == b.window
    &&& a.layers@ == b.layers@
    &&& a.should_despawn == b.should_despawn
}

/// `new` is `old` with slot `i` alone possibly changed.
pub open spec fn others_unchanged<W, L>(old: Seq<WindowSlot<W, L>>, new: Seq<WindowSlot<W, L>>, i: int) -> bool {
    &&& new.len() == old.len()
    &&& forall|j: int| 0 <= j < old.len() && j != i ==> new[j] == #[trigger] old[j]
}

pub proof fn lemma_after_close_push<W, L>(s: Seq<WindowSlot<W, L>>, x: WindowSlot<W, L>, id: u64)
    ensures
        after_close(s.push(x), id) == if x.window_id != id {
            after_close(s, id).push(despawned(x))
        } else {
            after_close(s, id)
        },
{
    let f = |t: WindowSlot<W, L>| despawned(t);
    let m = s.map_values(f);
    assert(s.push(x).map_values(f) =~= m.push(despawned(x)));
    assert(m.push(despawned(x)).drop_last() =~= m);
    reveal(Seq::filter);
}

/// Closing window `id` leaves no window with that id, tells every remaining
/// window's logic to shut down, and keeps every other window.
pub proof fn lemma_close_window<W, L>(windows: Seq<WindowSlot<W, L>>, id: u64)
    ensures
        !has_window(after_close(windows, id), id),
        forall|i: int| 0 <= i < after_close(windows, id).len()
            ==> (#[trigger] after_close(windows, id)[i]).should_despawn,
        forall|j: int| 0 <= j < windows.len() && (#[trigger] windows[j]).window_id != id
            ==> after_close(windows, id).contains(despawned(windows[j])),
        after_close(windows, id).len() <= windows.len(),
{
    let f = |t: WindowSlot<W, L>| despawned(t);
    let p = |s: WindowSlot<W, L>| s.window_id != id;
    let m = windows.map_values(f);
    #[allow(deprecated)]
    m.filter_lemma(p);
    let out = after_close(windows, id);
    assert(out == m.filter(p));
    assert forall|i: int| 0 <= i < out.len() implies (#[trigger] out[i]).should_despawn && out[i].window_id != id by {
        assert(p(out[i]));
        assert(out.contains(out[i]));
        m.lemma_filter_contains_rev(p, out[i]);
        let k = choose|k: int| 0 <= k < m.len() && m[k] == out[i];
        assert(m[k] == despawned(windows[k]));
    }
    assert forall|j: int| 0 <= j < windows.len() && (#[trigger] windows[j]).window_id != id
        implies out.contains(despawned(windows[j])) by {
        assert(m[j] == despawned(windows[j]));
        assert(p(m[j]));
    }
}

/// Only one slot is the first to hold window `id`.
proof fn lemma_first_window_unique<W, L>(windows: Seq<WindowSlot<W, L>>, id: u64, i: int)
    requires
        is_first_window(windows, id, i),
    ensures
        forall|j: int| #[trigger] is_first_window(windows, id, j) ==> j == i,
{
    assert forall|j: int| #[trigger] is_first_window(windows, id, j) implies j == i by {
        if j < i {
            assert(windows[j].window_id != id);
        }
        if j > i {
            assert(windows[i].window_id != id);
        }
    }
}

/// Without a window `id` no slot is the first to hold it.
proof fn lemma_no_first_window<W, L>(windows: Seq<WindowSlot<W, L>>, id: u64)
    ensures
        !has_window(windows, id) ==> forall|j: int| !#[trigger] is_first_window(windows, id, j),
{
    assert forall|j: int| !has_window(windows, id) implies !#[trigger] is_first_window(windows, id, j) by {
        if is_first_window(windows, id, j) {
            assert(windows[j].window_id == id);
        }
    }
}

impl<W, L> Engine<W, L> {
    /// An engine with no window.
    pub fn new() -> (res: Self)
        ensures
            res.windows@ == Seq::<WindowSlot<W, L>>::empty(),
    {
        Engine { windows: Vec::new() }
    }

    /// Registers a started window with no layers and no requests.
    pub fn add_window(&mut self, window_id: u64, window: W)
        ensures
            final(self).windows@.len() == old(self).windows@.len() + 1,
            final(self).windows@.drop_last() == old(self).windows@,
            final(self).windows@.last().window_id == window_id,
            final(self).windows@.last().window == window,
            final(self).windows@.last().layers@ == Seq::<L>::empty(),
            final(self).windows@.last().requests@ == Seq::<Request<L>>::empty(),
            !final(self).windows@.last().should_despawn,
    {
        self.windows.push(
            WindowSlot { window_id, window, layers: Vec::new(), requests: Vec::new(), should_despawn: false },
        );
        assert(self.windows@.drop_last() =~= old(self).windows@);
    }

    /// The first slot holding window `id`, if any.
    pub fn find_window(&self, id: u64) -> (res: Option<usize>)
        ensures
            match res {
                Some(i) => is_first_window(self.windows@, id, i as int),
                None => !has_window(self.windows@, id),
            },
    {
        let mut i: usize = 0;
        while i < self.windows.len()
            invariant
                i <= self.windows@.len(),
                forall|j: int| 0 <= j < i ==> (#[trigger] self.windows@[j]).window_id != id,
            decreases self.windows@.len() - i,
        {
            if self.windows[i].window_id == id {
                return Some(i);
            }
            i = i + 1;
        }
        None
    }

    /// Tells every window's logic to shut down and drops the windows with
    /// id `id`.
    pub fn close_window(&mut self, id: u64)
        ensures
            final(self).windows@ == after_close(old(self).windows@, id),
    {
        let ghost orig = self.windows@;
        let mut rest: Vec<WindowSlot<W, L>> = Vec::new();
        std::mem::swap(&mut rest, &mut self.windows);
        assert(orig.take(0) =~= Seq::<WindowSlot<W, L>>::empty());
        assert(after_close(Seq::<WindowSlot<W, L>>::empty(), id) =~= Seq::<WindowSlot<W, L>>::empty()) by {
            reveal(Seq::filter);
        }
        assert(orig.skip(0) =~= orig);
        while rest.len() > 0
            invariant
                0 <= orig.len() - rest@.len() <= orig.len(),
                rest@ == orig.skip(orig.len() - rest@.len()),
                self.windows@ == after_close(orig.take(orig.len() - rest@.len()), id),
            decreases rest@.len(),
        {
            let ghost k = orig.len() - rest@.len();
            let mut slot = rest.remove(0);
            proof {
                lemma_after_close_push(orig.take(k), slot, id);
                assert(orig.take(k + 1) =~= orig.take(k).push(slot));
                assert(rest@ =~= orig.skip(k + 1));
            }
            slot.should_despawn = true;
            if slot.window_id != id {
                self.windows.push(slot);
            }
        }
        assert(orig.take(orig.len() as int) =~= orig);
    }

    fn push_layer(&mut self, i: usize, layer: L)
        requires
            i < old(self).windows@.len(),
        ensures
            others_unchanged(old(self).windows@, final(self).windows@, i as int),
            same_but_layers(old(self).windows@[i as int], final(self).windows@[i as int]),
            final(self).windows@[i as int].layers@ == old(self).windows@[i as int].layers@.push(layer),
    {
        self.windows[i].layers.push(layer);
    }

    /// Applies one command to the window table and says what is left for the
    /// caller to do.
    pub fn run_command<H, A, F>(&mut self, command: Command<H, A, L, F>) -> (res: Outcome<H, A, F>) where
        L: Clone,
        requires
            command_ok(old(self).windows@, command),
        ensures
            match command {
                Command::CloseWindow(id) => {
                    &&& final(self).windows@ == after_close(old(self).windows@, id)
                    &&& final(self).windows@.len() == 0 ==> res is AllWindowsClosed
                    &&& final(self).windows@.len() != 0 ==> res is Done
                },
                Command::Exit => final(self).windows@ == old(self).windows@ && res is ExitLoop,
                Command::NewWindow(h, a) => final(self).windows@ == old(self).windows@
                    && res == Outcome::<H, A, F>::StartWindow(h, a),
                Command::AddRenderLayer(id, layer) => {
                    &&& res is Done
                    &&& !has_window(old(self).windows@, id) ==> final(self).windows@ == old(self).windows@
                    &&& forall|i: int| #[trigger] is_first_window(old(self).windows@, id, i) ==> {
                        &&& others_unchanged(old(self).windows@, final(self).windows@, i)
                        &&& same_but_layers(old(self).windows@[i], final(self).windows@[i])
                        &&& final(self).windows@[i].layers@ == old(self).windows@[i].layers@.push(layer)
                    }
                },
                Command::RemoveRenderLayer(id, index) => {
                    &&& res is Done
                    &&& !has_window(old(self).windows@, id) ==> final(self).windows@ == old(self).windows@
                    &&& forall|i: int| #[trigger] is_first_window(old(self).windows@, id, i) ==> {
                        &&& others_unchanged(old(self).windows@, final(self).windows@, i)
                        &&& same_but_layers(old(self).windows@[i], final(self).windows@[i])
                        &&& final(self).windows@[i].layers@ == old(self).windows@[i].layers@.remove(index as int)
                    }
                },
                Command::ModifyRenderLayer(id, index, op) => {
                    &&& final(self).windows@ == old(self).windows@
                    &&& forall|i: int| #[trigger] is_first_window(old(self).windows@, id, i) ==> {
                        &&& index < old(self).windows@[i].layers@.len() ==> res == Outcome::<H, A, F>::ModifyLayer(
                            i as usize,
                            index,
                            op,
                        )
                        &&& index >= old(self).windows@[i].layers@.len() ==> res is Done
                    }
                    &&& !has_window(old(self).windows@, id) ==> res is Done
                },
                Command::GetRenderLayerClone(read, index, target) => {
                    &&& res is Done
                    &&& forall|r: int, t: int|
                        #[trigger] is_first_window(old(self).windows@, read, r) && #[trigger] is_first_window(
                            old(self).windows@,
                            target,
                            t,
                        ) && index < old(self).windows@[r].layers@.len() ==> {
                            &&& others_unchanged(old(self).windows@, final(self).windows@, t)
                            &&& same_but_requests(old(self).windows@[t], final(self).windows@[t])
                            &&& final(self).windows@[t].requests@.len() == old(self).windows@[t].requests@.len() + 1
                            &&& final(self).windows@[t].requests@.drop_last() == old(self).windows@[t].requests@
                            &&& final(self).windows@[t].requests@.last() matches Request::RenderLayerClone(c)
                                && cloned(old(self).windows@[r].layers@[index as int], c)
                        }
                    &&& forall|r: int| #[trigger] is_first_window(old(self).windows@, read, r)
                        && index >= old(self).windows@[r].layers@.len() ==> final(self).windows@ == old(self).windows@
                    &&& !has_window(old(self).windows@, read) ==> final(self).windows@ == old(self).windows@
                    &&& !has_window(old(self).windows@, target) ==> final(self).windows@ == old(self).windows@
                },
            },
    {
        match command {
            Command::CloseWindow(id) => {
                self.close_window(id);
                if self.windows.len() == 0 {
                    Outcome::AllWindowsClosed
                } else {
                    Outcome::Done
                }
            },
            Command::Exit => Outcome::ExitLoop,
            Command::NewWindow(h, a) => Outcome::StartWindow(h, a),
            Command::AddRenderLayer(id, layer) => {
                if let Some(i) = self.find_window(id) {
                    self.push_layer(i, layer);
                }
                Outcome::Done
            },
            Command::RemoveRenderLayer(id, index) => {
                if let Some(i) = self.find_window(id) {
                    assert(is_first_window(self.windows@, id, i as int));
                    self.windows[i].layers.remove(index);
                }
                Outcome::Done
            },
            Command::ModifyRenderLayer(id, index, op) => {
                match self.find_window(id) {
                    Some(i) => {
                        proof {
                            lemma_first_window_unique(self.windows@, id, i as int);
                        }
                        if index < self.windows[i].layers.len() {
                            Outcome::ModifyLayer(i, index, op)
                        } else {
                            Outcome::Done
                        }
                    },
                    None => {
                        proof {
                            lemma_no_first_window(self.windows@, id);
                        }
                        Outcome::Done
                    },
                }
            },
            Command::GetRenderLayerClone(read, index, target) => {
                proof {
                    lemma_no_first_window(old(self).windows@, read);
                    lemma_no_first_window(old(self).windows@, target);
                }
                if let Some(r) = self.find_window(read) {
                    proof {
                        lemma_first_window_unique(old(self).windows@, read, r as int);
                    }
                    if index < self.windows[r].layers.len() {
                        let copy = self.windows[r].layers[index].clone();
                        if let Some(t) = self.find_window(target) {
                            proof {
                                lemma_first_window_unique(old(self).windows@, target, t as int);
                            }
                            self.windows[t].requests.push(Request::RenderLayerClone(copy));
                            assert(self.windows@[t as int].requests@.drop_last() =~= old(self).windows@[t as int].requests@);
                        }
                    }
                }
                Outcome::Done
            },
        }
    }
}

} // verus!
