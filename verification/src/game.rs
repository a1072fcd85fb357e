//! Platform-independent gameplay state, and the frame hooks of the render
//! and UI layers that read it.

use vstd::prelude::*;

verus! {

/// The gameplay state: for now, the number of simulation ticks run so far.
#[derive(Debug)]
pub struct GameCore {
    tick: u64,
}

impl Default for GameCore {
    fn default() -> (core: Self)
        ensures
            core.ticks() == 0,
    {
        GameCore { tick: 0 }
    }
}

impl GameCore {
    /// The number of ticks counted so far.
    pub closed spec fn ticks(&self) -> nat {
        self.tick as nat
    }

    /// A fresh state, at tick zero.
    pub fn new() -> (core: Self)
        ensures
            core.ticks() == 0,
    {
        Self::default()
    }

    /// Advances the simulation by one tick.
    pub fn update(&mut self)
        requires
            old(self).ticks() < u64::MAX,
        ensures
            final(self).ticks() == old(self).ticks() + 1,
    {
        self.tick = self.tick + 1;
    }

    /// The number of ticks run so far.
    pub fn tick(&self) -> (t: u64)
        ensures
            t == self.ticks(),
    {
        self.tick
    }
}

/// The rendering layer. It draws nothing yet.
#[derive(Debug, PartialEq, Eq, Structural)]
pub struct Renderer;

impl Default for Renderer {
    fn default() -> (v: Self)
        ensures
            v == Renderer,
    {
        Renderer
    }
}

impl Renderer {
    pub fn new() -> (r: Self)
        ensures
            r == Renderer,
    {
        Renderer
    }

    /// Draws one frame of the game; for now nothing is drawn and nothing changes.
    pub fn draw_frame(&mut self, _game: &GameCore)
        ensures
            *final(self) == *old(self),
    {
    }
}

/// The UI layer's own state. It keeps nothing yet.
#[derive(Debug, PartialEq, Eq, Structural)]
pub struct UiState;

impl Default for UiState {
    fn default() -> (v: Self)
        ensures
            v == UiState,
    {
        UiState
    }
}

impl UiState {
    pub fn new() -> (u: Self)
        ensures
            u == UiState,
    {
        UiState
    }

    /// Brings the UI in line with the game; for now nothing changes.
    pub fn update(&mut self, _game: &GameCore)
        ensures
            *final(self) == *old(self),
    {
    }
}

/// After `n` updates from a fresh state, the tick count is `n`: each update
/// adds exactly one.
pub proof fn lemma_ticks_count_updates(start: GameCore, after: Seq<GameCore>)
    requires
        start.ticks() == 0,
        after.len() > 0,
        after[0] == start,
        forall|i: int| 0 <= i < after.len() - 1 ==> #[trigger] after[i + 1].ticks() == after[i].ticks() + 1,
    ensures
        forall|i: int| 0 <= i < after.len() ==> #[trigger] after[i].ticks() == i,
    decreases after.len(),
{
    if after.len() > 1 {
        let shorter = after.drop_last();
        assert forall|i: int| 0 <= i < shorter.len() - 1 implies #[trigger] shorter[i + 1].ticks()
            == shorter[i].ticks() + 1 by {
            assert(after[i + 1].ticks() == after[i].ticks() + 1);
        }
        lemma_ticks_count_updates(start, shorter);
        assert forall|i: int| 0 <= i < after.len() implies #[trigger] after[i].ticks() == i by {
            if i < shorter.len() {
                assert(shorter[i] == after[i]);
            } else {
                assert(shorter[i - 1].ticks() == i - 1);
                assert(after[i].ticks() == after[i - 1].ticks() + 1);
            }
        }
    }
}

} // verus!
