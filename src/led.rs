use vstd::prelude::*;

use crate::color::RGBW;

verus! {

/// What the status LED is asked to show next.
#[derive(Clone, Copy, Debug, PartialEq, Eq, Structural)]
pub enum LedState {
    Color(RGBW),
    Default,
    Off,
    Noop,
}

/// The ambient colour: a dim green.
pub open spec fn ambient_color() -> RGBW {
    RGBW { r: 0, g: 10, b: 0, w: 0 }
}

/// The colour of the error flashes: a mid-brightness red.
pub open spec fn alert_color() -> RGBW {
    RGBW { r: 128, g: 0, b: 0, w: 0 }
}

/// The colour shown while an input is being handled: a mid-brightness blue.
pub open spec fn busy_color() -> RGBW {
    RGBW { r: 0, g: 0, b: 64, w: 0 }
}

/// The colour that goes out on the wire for a state, if any.
pub open spec fn frame_of(state: LedState) -> Option<RGBW> {
    match state {
        LedState::Color(c) => Some(c),
        LedState::Default => Some(ambient_color()),
        LedState::Off => Some(RGBW { r: 0, g: 0, b: 0, w: 0 }),
        LedState::Noop => None,
    }
}

/// One step of the LED driver's work on the wire.
#[derive(Clone, Copy, Debug, PartialEq, Eq, Structural)]
pub enum LedOp {
    /// Shift out the frame for one LED of this colour.
    Transmit(RGBW),
    /// Keep the line idle for `LATCH_GAP_MICROS` so the LED latches the frame.
    LatchGap,
}

/// What the driver does on the wire for one state: a frame and its latch gap,
/// or nothing.
pub open spec fn ops_of(state: LedState) -> Seq<LedOp> {
    match frame_of(state) {
        Some(c) => seq![LedOp::Transmit(c), LedOp::LatchGap],
        None => Seq::empty(),
    }
}

/// What the driver does on the wire for a run of states, in order.
pub open spec fn ops_of_run(states: Seq<LedState>) -> Seq<LedOp>
    decreases states.len(),
{
    if states.len() == 0 {
        Seq::empty()
    } else {
        ops_of_run(states.drop_last()) + ops_of(states.last())
    }
}

pub fn ambient() -> (c: RGBW)
    ensures
        c == ambient_color(),
{
    RGBW::new(0, 10, 0, 0)
}

pub fn alert() -> (c: RGBW)
    ensures
        c == alert_color(),
{
    RGBW::new(128, 0, 0, 0)
}

pub fn busy() -> (c: RGBW)
    ensures
        c == busy_color(),
{
    RGBW::new(0, 0, 64, 0)
}

impl LedState {
    /// The one-LED frame to transmit for this state; `None` means that the
    /// driver sends nothing and waits for the next state.
    pub fn frame(&self) -> (f: Option<RGBW>)
        ensures
            f == frame_of(*self),
    {
        match self {
            LedState::Color(c) => Some(*c),
            LedState::Default => Some(ambient()),
            LedState::Off => Some(RGBW::black()),
            LedState::Noop => None,
        }
    }

    /// The driver's work on the wire for this state, in order.
    pub fn ops(&self) -> (ops: Vec<LedOp>)
        ensures
            ops@ == ops_of(*self),
    {
        match self.frame() {
            Some(c) => {
                let ops = vec![LedOp::Transmit(c), LedOp::LatchGap];
                assert(ops@ =~= ops_of(*self));
                ops
            },
            None => {
                let ops: Vec<LedOp> = Vec::new();
                assert(ops@ =~= ops_of(*self));
                ops
            },
        }
    }
}

/// A colour, then the ambient colour, then nothing: exactly two frames go out,
/// each followed by the latch gap before anything else may start.
pub proof fn lemma_color_default_noop(x: RGBW)
    ensures
        ops_of_run(seq![LedState::Color(x), LedState::Default, LedState::Noop]) == seq![
            LedOp::Transmit(x),
            LedOp::LatchGap,
            LedOp::Transmit(ambient_color()),
            LedOp::LatchGap,
        ],
{
    let s = seq![LedState::Color(x), LedState::Default, LedState::Noop];
    let s2 = seq![LedState::Color(x), LedState::Default];
    let s1 = seq![LedState::Color(x)];
    let e = Seq::<LedState>::empty();
    assert(s.drop_last() =~= s2);
    assert(s2.drop_last() =~= s1);
    assert(s1.drop_last() =~= e);
    assert(ops_of_run(e) == Seq::<LedOp>::empty());
    assert(ops_of_run(s1) =~= seq![LedOp::Transmit(x), LedOp::LatchGap]);
    assert(ops_of_run(s2) =~= seq![
        LedOp::Transmit(x),
        LedOp::LatchGap,
        LedOp::Transmit(ambient_color()),
        LedOp::LatchGap,
    ]);
    assert(ops_of_run(s) =~= ops_of_run(s2));
}

/// Every frame the driver sends is followed at once by the latch gap, however
/// the states come.
pub proof fn lemma_every_frame_latched(states: Seq<LedState>)
    ensures
        forall|i: int|
            0 <= i < ops_of_run(states).len() && #[trigger] ops_of_run(states)[i] is Transmit ==> i + 1
                < ops_of_run(states).len() && ops_of_run(states)[i + 1] is LatchGap,
    decreases states.len(),
{
    if states.len() > 0 {
        lemma_every_frame_latched(states.drop_last());
        let before = ops_of_run(states.drop_last());
        let last = ops_of(states.last());
        assert forall|i: int|
            0 <= i < ops_of_run(states).len() && #[trigger] ops_of_run(states)[i] is Transmit implies i + 1
            < ops_of_run(states).len() && ops_of_run(states)[i + 1] is LatchGap by {
            if i < before.len() {
                assert(ops_of_run(states)[i] == before[i]);
                assert(ops_of_run(states)[i + 1] == before[i + 1]);
            } else {
                assert(ops_of_run(states)[i] == last[i - before.len()]);
                assert(ops_of_run(states)[i + 1] == last[i + 1 - before.len()]);
            }
        }
    }
}

} // verus!
