//! The gradient cycle of a running instance: which gradient is on screen,
//! how events and timer ticks move it, and when the instance stops.
use vstd::prelude::*;

use crate::cli::{parse_word, word_command, Commands};
use crate::config::{gradient_views, GradientProfile, GradientSpec};

verus! {

/// Why the cycle cannot go on.
#[derive(Debug, Clone, Copy, PartialEq, Eq, Structural)]
pub enum CycleError {
    /// There is no gradient at the requested index.
    NoGradient,
    /// The event file held a word that names no event.
    UnknownEvent,
}

/// The index that follows `current` in a cycle of `len` gradients; a cycle
/// of at most one gradient does not move.
pub open spec fn next_index(current: int, len: int) -> int {
    if len <= 1 {
        current
    } else {
        (current + 1) % len
    }
}

/// Stop the main loop.
pub fn halt_event(running: &mut bool)
    ensures
        *final(running) == false,
{
    *running = false;
}

/// A copy of the gradient at `index`, which is to be shown.
pub fn set_current_gradient(gradients: &[GradientProfile], index: usize) -> (r: Result<
    GradientProfile,
    CycleError,
>)
    ensures
        match r {
            Ok(g) => index < gradients@.len() && g@ == gradients@[index as int]@,
            Err(e) => index >= gradients@.len() && e == CycleError::NoGradient,
        },
{
    if index < gradients.len() {
        Ok(gradients[index].clone())
    } else {
        Err(CycleError::NoGradient)
    }
}

/// Move to the next gradient, wrapping around; returns the gradient to
/// show, or nothing when there is at most one gradient.
pub fn advance_gradient(gradients: &[GradientProfile], current_index: &mut usize) -> (r: Option<
    GradientProfile,
>)
    requires
        *old(current_index) < usize::MAX,
    ensures
        *final(current_index) == next_index(*old(current_index) as int, gradients@.len() as int),
        gradients@.len() <= 1 ==> r is None,
        gradients@.len() > 1 ==> (r matches Some(g) && g@ == gradients@[*final(current_index) as int]@),
{
    if gradients.len() <= 1 {
        return None;
    }
    *current_index = (*current_index + 1) % gradients.len();
    match set_current_gradient(gradients, *current_index) {
        Ok(g) => Some(g),
        Err(_) => None,
    }
}

/// The `next` event: move to the next gradient (the timer restarts
/// whatever this returns).
pub fn next_event(gradients: &[GradientProfile], current_index: &mut usize) -> (r: Option<
    GradientProfile,
>)
    requires
        *old(current_index) < usize::MAX,
    ensures
        *final(current_index) == next_index(*old(current_index) as int, gradients@.len() as int),
        gradients@.len() <= 1 ==> r is None,
        gradients@.len() > 1 ==> (r matches Some(g) && g@ == gradients@[*final(current_index) as int]@),
{
    advance_gradient(gradients, current_index)
}

/// The `reload` event, once the configuration has been read again: take the
/// new gradients and start over at the first one.
pub fn reload_event(
    gradients: &mut Vec<GradientProfile>,
    current_index: &mut usize,
    fresh: Vec<GradientProfile>,
) -> (r: Result<GradientProfile, CycleError>)
    ensures
        final(gradients)@ == fresh@,
        *final(current_index) == 0,
        match r {
            Ok(g) => fresh@.len() > 0 && g@ == fresh@[0]@,
            Err(e) => fresh@.len() == 0 && e == CycleError::NoGradient,
        },
{
    *gradients = fresh;
    *current_index = 0;
    set_current_gradient(gradients.as_slice(), 0)
}

/// What the main loop must do after an event.
#[derive(Debug)]
pub enum Reaction {
    /// Restart the timer, and show the gradient if there is one.
    Show(Option<GradientProfile>),
    /// The loop stops.
    Halt,
    /// Read the configuration again, then hand the new gradients to
    /// [`Cycle::reload`].
    Reload,
}

/// The state of the main loop: the gradients, the one on screen, and
/// whether the loop goes on.
pub struct Cycle {
    gradients: Vec<GradientProfile>,
    current_index: usize,
    running: bool,
}

impl Cycle {
    /// The index on screen is that of a gradient.
    pub closed spec fn wf(&self) -> bool {
        self.current_index < self.gradients@.len()
    }

    /// The gradients of the cycle.
    pub closed spec fn gradients_view(&self) -> Seq<GradientSpec> {
        gradient_views(self.gradients@)
    }

    /// The index of the gradient on screen.
    pub closed spec fn index(&self) -> int {
        self.current_index as int
    }

    /// Whether the main loop goes on.
    pub closed spec fn is_running(&self) -> bool {
        self.running
    }

    /// Start with the first gradient on screen.
    pub fn start(gradients: Vec<GradientProfile>) -> (r: Result<(Cycle, GradientProfile), CycleError>)
        ensures
            match r {
                Ok((c, g)) => {
                    &&& c.wf()
                    &&& c.gradients_view() == gradient_views(gradients@)
                    &&& c.index() == 0
                    &&& c.is_running()
                    &&& g@ == gradients@[0]@
                },
                Err(e) => e == CycleError::NoGradient && gradients@.len() == 0,
            },
    {
        let first = set_current_gradient(gradients.as_slice(), 0);
        match first {
            Ok(g) => Ok((Cycle { gradients, current_index: 0, running: true }, g)),
            Err(e) => Err(e),
        }
    }

    /// Whether the main loop goes on.
    pub fn running(&self) -> (r: bool)
        ensures
            r == self.is_running(),
    {
        self.running
    }

    /// The index of the gradient on screen.
    pub fn current_index(&self) -> (r: usize)
        ensures
            r == self.index(),
    {
        self.current_index
    }

    /// The number of gradients in the cycle.
    pub fn len(&self) -> (r: usize)
        ensures
            r == self.gradients_view().len(),
    {
        self.gradients.len()
    }

    /// React to a word read from the event file.
    pub fn handle_event(&mut self, word: &str) -> (r: Result<Reaction, CycleError>)
        requires
            old(self).wf(),
        ensures
            final(self).wf(),
            final(self).gradients_view() == old(self).gradients_view(),
            match word_command(word@) {
                Some(Commands::Next) => {
                    let n = old(self).gradients_view().len() as int;
                    &&& final(self).index() == next_index(old(self).index(), n)
                    &&& final(self).is_running() == old(self).is_running()
                    &&& r matches Ok(Reaction::Show(shown))
                    &&& n <= 1 ==> shown is None
                    &&& n > 1 ==> (shown matches Some(g) && g@ == final(self).gradients_view()[final(self).index()])
                },
                Some(Commands::Halt) => {
                    &&& r matches Ok(Reaction::Halt)
                    &&& final(self).index() == old(self).index()
                    &&& !final(self).is_running()
                },
                Some(Commands::Reload) => {
                    &&& r matches Ok(Reaction::Reload)
                    &&& final(self).index() == old(self).index()
                    &&& final(self).is_running() == old(self).is_running()
                },
                _ => {
                    &&& r == Err::<Reaction, CycleError>(CycleError::UnknownEvent)
                    &&& final(self).index() == old(self).index()
                    &&& final(self).is_running() == old(self).is_running()
                },
            },
    {
        let ghost gs = gradient_views(self.gradients@);
        let _len = self.gradients.len();
        match parse_word(word) {
            Some(Commands::Next) => {
                let shown = next_event(self.gradients.as_slice(), &mut self.current_index);
                proof {
                    if gs.len() > 1 {
                        assert(gs[self.current_index as int] == self.gradients@[self.current_index as int]@);
                    }
                }
                Ok(Reaction::Show(shown))
            },
            Some(Commands::Halt) => {
                halt_event(&mut self.running);
                Ok(Reaction::Halt)
            },
            Some(Commands::Reload) => Ok(Reaction::Reload),
            _ => Err(CycleError::UnknownEvent),
        }
    }

    /// The timer ran out: move to the next gradient when there are several;
    /// the caller restarts the timer when a gradient comes back.
    pub fn tick(&mut self) -> (r: Option<GradientProfile>)
        requires
            old(self).wf(),
        ensures
            final(self).wf(),
            final(self).gradients_view() == old(self).gradients_view(),
            final(self).is_running() == old(self).is_running(),
            final(self).index() == next_index(old(self).index(), old(self).gradients_view().len() as int),
            old(self).gradients_view().len() <= 1 ==> r is None,
            old(self).gradients_view().len() > 1 ==> (r matches Some(g) && g@ == final(self).gradients_view()[final(self).index()]),
    {
        let ghost gs = gradient_views(self.gradients@);
        let _len = self.gradients.len();
        let r = advance_gradient(self.gradients.as_slice(), &mut self.current_index);
        proof {
            if gs.len() > 1 {
                assert(gs[self.current_index as int] == self.gradients@[self.current_index as int]@);
            }
        }
        r
    }

    /// Take the gradients of a reloaded configuration and show the first.
    pub fn reload(&mut self, fresh: Vec<GradientProfile>) -> (r: Result<GradientProfile, CycleError>)
        ensures
            final(self).gradients_view() == gradient_views(fresh@),
            final(self).index() == 0,
            final(self).is_running() == old(self).is_running(),
            match r {
                Ok(g) => final(self).wf() && g@ == fresh@[0]@,
                Err(e) => e == CycleError::NoGradient && fresh@.len() == 0,
            },
    {
        reload_event(&mut self.gradients, &mut self.current_index, fresh)
    }
}

/// The index reached from `i` after `k` steps of a cycle of `n` gradients.
pub open spec fn index_after(i: int, n: int, k: nat) -> int
    decreases k,
{
    if k == 0 {
        i
    } else {
        next_index(index_after(i, n, (k - 1) as nat), n)
    }
}

/// Stepping through a cycle of several gradients adds the number of steps to
/// the index, modulo the number of gradients.
pub proof fn lemma_index_after(i: int, n: int, k: nat)
    requires
        n > 1,
        0 <= i < n,
    ensures
        index_after(i, n, k) == (i + k) % n,
    decreases k,
{
    if k > 0 {
        let k1 = (k - 1) as nat;
        lemma_index_after(i, n, k1);
        let prev = (i + k1) % n;
        assert(index_after(i, n, k1) == prev);
        assert(index_after(i, n, k) == (prev + 1) % n);
        assert((prev + 1) % n == (i + k) % n) by {
            vstd::arithmetic::div_mod::lemma_add_mod_noop(i + k1, 1, n);
            vstd::arithmetic::div_mod::lemma_small_mod(1, n as nat);
        }
    } else {
        vstd::arithmetic::div_mod::lemma_small_mod(i as nat, n as nat);
    }
}

/// Index `j` comes up within fewer than `n` steps from `i`.
pub open spec fn reached_within(i: int, n: int, j: int) -> bool {
    exists|k: nat| k < n && #[trigger] index_after(i, n, k) == j
}

/// After as many steps as there are gradients, the cycle is back where it
/// started, and on the way it has shown every gradient.
pub proof fn lemma_cycle_covers_all(i: int, n: int)
    requires
        n > 1,
        0 <= i < n,
    ensures
        index_after(i, n, n as nat) == i,
        forall|j: int| 0 <= j < n ==> #[trigger] reached_within(i, n, j),
{
    lemma_index_after(i, n, n as nat);
    assert((i + n) % n == i) by {
        vstd::arithmetic::div_mod::lemma_mod_add_multiples_vanish(i, n);
        vstd::arithmetic::div_mod::lemma_small_mod(i as nat, n as nat);
    }
    assert forall|j: int| 0 <= j < n implies #[trigger] reached_within(i, n, j) by {
        let k: nat = if j >= i { (j - i) as nat } else { (j - i + n) as nat };
        lemma_index_after(i, n, k);
        if j >= i {
            assert((i + k) % n == j) by {
                vstd::arithmetic::div_mod::lemma_small_mod(j as nat, n as nat);
            }
        } else {
            assert((i + k) % n == j) by {
                vstd::arithmetic::div_mod::lemma_mod_add_multiples_vanish(j, n);
                vstd::arithmetic::div_mod::lemma_small_mod(j as nat, n as nat);
            }
        }
    }
}

} // verus!
