use vstd::prelude::*;

use crate::images::Images;
use crate::state::InputEvent;

verus! {

/// Milliseconds to wait after reporting a press before looking at the pin again.
pub const PRESS_SETTLE_MS: u64 = 200;

/// Milliseconds between looks at a pin that is still held down.
pub const HOLD_POLL_MS: u64 = 100;

/// Number of item buttons.
pub const ITEM_BUTTONS: usize = 8;

/// What a button watcher does next.
#[derive(Clone, Copy, Debug, PartialEq, Eq, Structural)]
pub enum WatchAction {
    /// Send the event to the state machine, wait `PRESS_SETTLE_MS`, then look
    /// at the pin again.
    Send(InputEvent),
    /// Wait `HOLD_POLL_MS`, then look at the pin again.
    Poll,
    /// Wait for the pin to change level, then look at it again.
    Rearm,
}

/// Watches one button and turns each press, however long and however noisy,
/// into one input event.
#[derive(Clone, Copy, Debug, PartialEq, Eq, Structural)]
pub struct ButtonWatcher {
    /// The event that a press of this button stands for.
    pub binding: InputEvent,
    /// Whether a press has been reported and the button not yet seen released.
    pub held: bool,
}

/// The watcher's next `held` and action when it sees the pin `pressed` or not.
pub open spec fn watch_step(w: ButtonWatcher, pressed: bool) -> (ButtonWatcher, WatchAction) {
    if !w.held {
        if pressed {
            (ButtonWatcher { held: true, ..w }, WatchAction::Send(w.binding))
        } else {
            (w, WatchAction::Rearm)
        }
    } else if pressed {
        (w, WatchAction::Poll)
    } else {
        (ButtonWatcher { held: false, ..w }, WatchAction::Rearm)
    }
}

/// The watcher after a run of looks at the pin, and how many events it sent.
pub open spec fn watch_run(w: ButtonWatcher, looks: Seq<bool>) -> (ButtonWatcher, nat)
    decreases looks.len(),
{
    if looks.len() == 0 {
        (w, 0)
    } else {
        let before = watch_run(w, looks.drop_last());
        let last = watch_step(before.0, looks.last());
        (last.0, before.1 + if last.1 is Send {
            1nat
        } else {
            0nat
        })
    }
}

/// One press: the pin reads pressed at the edge and at `extra` more polls,
/// then released.
pub open spec fn one_press(extra: nat) -> Seq<bool> {
    pressed_for(extra + 1).push(false)
}

/// `n` looks at a pin that reads pressed.
pub open spec fn pressed_for(n: nat) -> Seq<bool> {
    Seq::new(n, |i: int| true)
}

/// The item and price of each item button, in button order.
pub open spec fn item_binding(slot: int) -> (Images, u16) {
    if slot == 0 {
        (Images::Garlic, 1)
    } else if slot == 1 {
        (Images::Carrot, 2)
    } else if slot == 2 {
        (Images::Corn, 3)
    } else if slot == 3 {
        (Images::Tomato, 4)
    } else if slot == 4 {
        (Images::Mushroom, 5)
    } else if slot == 5 {
        (Images::Aubergine, 6)
    } else if slot == 6 {
        (Images::Pumpkin, 7)
    } else {
        (Images::Croissant, 8)
    }
}

impl ButtonWatcher {
    /// A watcher for a button that stands for `binding`, not pressed.
    pub fn new(binding: InputEvent) -> (w: Self)
        ensures
            w == (ButtonWatcher { binding, held: false }),
    {
        ButtonWatcher { binding, held: false }
    }

    /// A watcher for the item button in `slot` of the till's layout.
    pub fn item(slot: usize) -> (w: Self)
        requires
            slot < ITEM_BUTTONS,
        ensures
            w == (ButtonWatcher {
                binding: InputEvent::ProduceButtonPressed {
                    image: item_binding(slot as int).0,
                    price: item_binding(slot as int).1,
                },
                held: false,
            }),
    {
        let (image, price) = match slot {
            0 => (Images::Garlic, 1u16),
            1 => (Images::Carrot, 2u16),
            2 => (Images::Corn, 3u16),
            3 => (Images::Tomato, 4u16),
            4 => (Images::Mushroom, 5u16),
            5 => (Images::Aubergine, 6u16),
            6 => (Images::Pumpkin, 7u16),
            _ => (Images::Croissant, 8u16),
        };
        Self::new(InputEvent::ProduceButtonPressed { image, price })
    }

    /// A watcher for the void button.
    pub fn void() -> (w: Self)
        ensures
            w == (ButtonWatcher { binding: InputEvent::VoidButtonPressed, held: false }),
    {
        Self::new(InputEvent::VoidButtonPressed)
    }

    /// A watcher for the total button.
    pub fn total() -> (w: Self)
        ensures
            w == (ButtonWatcher { binding: InputEvent::TotalButtonPressed, held: false }),
    {
        Self::new(InputEvent::TotalButtonPressed)
    }

    /// Takes one look at the pin: a press not yet reported is sent; a press
    /// already reported is polled until the button is released; a released
    /// button waits for the next edge.
    pub fn observe(&mut self, pressed: bool) -> (action: WatchAction)
        ensures
            (*final(self), action) == watch_step(*old(self), pressed),
    {
        if !self.held {
            if pressed {
                self.held = true;
                WatchAction::Send(self.binding)
            } else {
                WatchAction::Rearm
            }
        } else if pressed {
            WatchAction::Poll
        } else {
            self.held = false;
            WatchAction::Rearm
        }
    }
}

/// One physical press, held through any number of extra polls and then let go,
/// sends exactly one event and leaves the watcher ready for the next press.
pub proof fn lemma_one_event_per_press(w: ButtonWatcher, extra: nat)
    requires
        !w.held,
    ensures
        watch_run(w, one_press(extra)).1 == 1,
        watch_run(w, one_press(extra)).0 == w,
{
    assert(one_press(extra).drop_last() =~= pressed_for(extra + 1));
    lemma_first_then_held(w, extra);
}

proof fn lemma_first_then_held(w: ButtonWatcher, extra: nat)
    requires
        !w.held,
    ensures
        watch_run(w, pressed_for(extra + 1)) == (ButtonWatcher { held: true, ..w }, 1nat),
    decreases extra,
{
    let s = pressed_for(extra + 1);
    assert(s.drop_last() =~= pressed_for(extra));
    assert(s.last());
    let held = ButtonWatcher { held: true, ..w };
    if extra == 0 {
        assert(pressed_for(0) =~= Seq::<bool>::empty());
        assert(watch_run(w, pressed_for(0)) == (w, 0nat));
        assert(watch_step(w, true) == (held, WatchAction::Send(w.binding)));
    } else {
        let k = (extra - 1) as nat;
        assert(k + 1 == extra);
        lemma_first_then_held(w, k);
        assert(watch_run(w, pressed_for(extra)) == (held, 1nat));
        assert(watch_step(held, true) == (held, WatchAction::Poll));
    }
}

} // verus!
