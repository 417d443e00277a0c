use vstd::prelude::*;

use crate::images::Images;
use crate::led::{alert, alert_color, busy, busy_color, LedState};
use crate::color::RGBW;
use crate::printer::DriverEvent;

verus! {

/// The most a transaction may add up to.
pub const PRICE_CAP: u16 = 999;

/// Milliseconds of each phase of an error flash.
pub const FLASH_MS: u64 = 200;

/// Milliseconds between handling an input and going back to the ambient colour.
pub const SETTLE_MS: u64 = 400;

/// A button press, as the button watchers report it.
#[derive(Clone, Copy, Debug, PartialEq, Eq, Structural)]
pub enum InputEvent {
    ProduceButtonPressed { image: Images, price: u16 },
    VoidButtonPressed,
    TotalButtonPressed,
}

/// One step of what the state machine asks of the outside world, in order.
#[derive(Clone, Copy, Debug, PartialEq, Eq, Structural)]
pub enum Effect {
    /// Hand a state to the LED driver.
    Led(LedState),
    /// Hand an event to the print driver.
    Print(DriverEvent),
    /// Wait this many milliseconds.
    Delay(u64),
}

/// The state of the till: whether a transaction is open, and its total so far.
#[derive(Clone, Copy, Debug, PartialEq, Eq, Structural)]
pub struct TransactionState {
    pub active: bool,
    pub accumulated_price: u16,
}

/// A pulse on the LED: show a colour (the ambient one for `None`), then
/// release the driver.
pub open spec fn led_pulse(color: Option<RGBW>) -> Seq<Effect> {
    seq![
        Effect::Led(
            match color {
                Some(c) => LedState::Color(c),
                None => LedState::Default,
            },
        ),
        Effect::Led(LedState::Noop),
    ]
}

/// One flash of the error sequence.
pub open spec fn error_flash() -> Seq<Effect> {
    seq![
        Effect::Led(LedState::Color(alert_color())),
        Effect::Delay(FLASH_MS as u64),
        Effect::Led(LedState::Default),
        Effect::Delay(FLASH_MS as u64),
    ]
}

/// The error sequence: three flashes between the alert and ambient colours.
pub open spec fn error_sequence() -> Seq<Effect> {
    error_flash() + error_flash() + error_flash()
}

/// What opens the handling of every input.
pub open spec fn busy_pulse() -> Seq<Effect> {
    led_pulse(Some(busy_color()))
}

/// What closes the handling of every input.
pub open spec fn settle() -> Seq<Effect> {
    seq![Effect::Delay(SETTLE_MS as u64)] + led_pulse(None)
}

pub open spec fn idle() -> TransactionState {
    TransactionState { active: false, accumulated_price: 0 }
}

/// The next state, and the effects in order, for an input in a state.
pub open spec fn step(s: TransactionState, e: InputEvent) -> (TransactionState, Seq<Effect>) {
    match e {
        InputEvent::ProduceButtonPressed { image, price } => {
            let start = if s.active {
                s.accumulated_price as int
            } else {
                0
            };
            let opening = if s.active {
                Seq::<Effect>::empty()
            } else {
                seq![Effect::Print(DriverEvent::PrintHeader)]
            };
            if start + price > PRICE_CAP {
                (
                    TransactionState { active: true, accumulated_price: start as u16 },
                    busy_pulse() + opening + error_sequence() + settle(),
                )
            } else {
                (
                    TransactionState { active: true, accumulated_price: (start + price) as u16 },
                    busy_pulse() + opening + seq![
                        Effect::Print(DriverEvent::PrintLine { image, price }),
                    ] + settle(),
                )
            }
        },
        InputEvent::VoidButtonPressed => {
            if s.active {
                (idle(), busy_pulse() + seq![Effect::Print(DriverEvent::PrintVoid)] + settle())
            } else {
                (s, busy_pulse() + error_sequence() + settle())
            }
        },
        InputEvent::TotalButtonPressed => {
            if s.active {
                (
                    idle(),
                    busy_pulse() + seq![
                        Effect::Print(DriverEvent::PrintTotal { price: s.accumulated_price }),
                    ] + settle(),
                )
            } else {
                (s, busy_pulse() + error_sequence() + settle())
            }
        },
    }
}

/// A pulse on the LED: `color`, or the ambient colour for `None`, then a
/// release of the driver.
pub fn set_led_state(color: Option<RGBW>) -> (effects: Vec<Effect>)
    ensures
        effects@ == led_pulse(color),
{
    let state = match color {
        Some(c) => LedState::Color(c),
        None => LedState::Default,
    };
    let effects = vec![Effect::Led(state), Effect::Led(LedState::Noop)];
    assert(effects@ =~= led_pulse(color));
    effects
}

/// The error sequence, for an input that the current state does not allow.
pub fn err_toggle() -> (effects: Vec<Effect>)
    ensures
        effects@ == error_sequence(),
{
    let mut effects: Vec<Effect> = Vec::new();
    let mut n: usize = 0;
    while n < 3
        invariant
            n <= 3,
            n == 0 ==> effects@ == Seq::<Effect>::empty(),
            n == 1 ==> effects@ == error_flash(),
            n == 2 ==> effects@ == error_flash() + error_flash(),
            n == 3 ==> effects@ == error_sequence(),
        decreases 3 - n,
    {
        let ghost before = effects@;
        effects.push(Effect::Led(LedState::Color(alert())));
        effects.push(Effect::Delay(FLASH_MS));
        effects.push(Effect::Led(LedState::Default));
        effects.push(Effect::Delay(FLASH_MS));
        assert(effects@ =~= before + error_flash());
        n = n + 1;
    }
    effects
}

impl TransactionState {
    /// An open transaction never exceeds the cap; a closed one is at zero.
    pub open spec fn wf(&self) -> bool {
        &&& self.active ==> self.accumulated_price <= PRICE_CAP
        &&& !self.active ==> self.accumulated_price == 0
    }

    /// The state at power-up: no transaction.
    pub fn new() -> (s: Self)
        ensures
            s == idle(),
            s.wf(),
    {
        TransactionState { active: false, accumulated_price: 0 }
    }

    /// Handles one input: moves to the next state and returns, in order, what
    /// the LED and print drivers are to be sent and how long to wait between.
    pub fn handle(&mut self, event: InputEvent) -> (effects: Vec<Effect>)
        ensures
            (*final(self), effects@) == step(*old(self), event),
            old(self).wf() ==> final(self).wf(),
    {
        let mut effects = set_led_state(Some(busy()));
        match event {
            InputEvent::ProduceButtonPressed { image, price } => {
                if !self.active {
                    self.accumulated_price = 0;
                    self.active = true;
                    effects.push(Effect::Print(DriverEvent::PrintHeader));
                }
                if self.accumulated_price as u32 + price as u32 > PRICE_CAP as u32 {
                    let mut flashes = err_toggle();
                    effects.append(&mut flashes);
                } else {
                    self.accumulated_price = self.accumulated_price + price;
                    effects.push(Effect::Print(DriverEvent::PrintLine { image, price }));
                }
            },
            InputEvent::VoidButtonPressed => {
                if self.active {
                    effects.push(Effect::Print(DriverEvent::PrintVoid));
                    self.active = false;
                    self.accumulated_price = 0;
                } else {
                    let mut flashes = err_toggle();
                    effects.append(&mut flashes);
                }
            },
            InputEvent::TotalButtonPressed => {
                if self.active {
                    effects.push(Effect::Print(DriverEvent::PrintTotal { price: self.accumulated_price }));
                    self.active = false;
                    self.accumulated_price = 0;
                } else {
                    let mut flashes = err_toggle();
                    effects.append(&mut flashes);
                }
            },
        }
        effects.push(Effect::Delay(SETTLE_MS));
        let mut back = set_led_state(None);
        effects.append(&mut back);
        let ghost expected = step(*old(self), event);
        assert(effects@ =~= expected.1);
        effects
    }
}

/// The state and all effects after a run of inputs, handled in order.
pub open spec fn run(s: TransactionState, events: Seq<InputEvent>) -> (TransactionState, Seq<Effect>)
    decreases events.len(),
{
    if events.len() == 0 {
        (s, Seq::empty())
    } else {
        let before = run(s, events.drop_last());
        let last = step(before.0, events.last());
        (last.0, before.1 + last.1)
    }
}

/// The print driver's share of a list of effects, in order.
pub open spec fn prints(effects: Seq<Effect>) -> Seq<DriverEvent>
    decreases effects.len(),
{
    if effects.len() == 0 {
        Seq::empty()
    } else {
        prints(effects.drop_last()) + match effects.last() {
            Effect::Print(p) => seq![p],
            _ => Seq::empty(),
        }
    }
}

/// The price that an input adds, if it adds one.
pub open spec fn price_of(e: InputEvent) -> int {
    match e {
        InputEvent::ProduceButtonPressed { price, .. } => price as int,
        _ => 0,
    }
}

/// The prices of a run of inputs, added up.
pub open spec fn sum_prices(events: Seq<InputEvent>) -> int
    decreases events.len(),
{
    if events.len() == 0 {
        0
    } else {
        sum_prices(events.drop_last()) + price_of(events.last())
    }
}

/// The item line that a produce input prints.
pub open spec fn line_of(e: InputEvent) -> DriverEvent {
    match e {
        InputEvent::ProduceButtonPressed { image, price } => DriverEvent::PrintLine { image, price },
        _ => DriverEvent::PrintVoid,
    }
}

proof fn lemma_prints_concat(a: Seq<Effect>, b: Seq<Effect>)
    ensures
        prints(a + b) == prints(a) + prints(b),
    decreases b.len(),
{
    if b.len() == 0 {
        assert(a + b =~= a);
        assert(prints(b) =~= Seq::<DriverEvent>::empty());
        assert(prints(a) + prints(b) =~= prints(a));
    } else {
        assert((a + b).drop_last() =~= a + b.drop_last());
        lemma_prints_concat(a, b.drop_last());
        assert(prints(a) + prints(b) =~= prints(a) + prints(b.drop_last()) + match b.last() {
            Effect::Print(p) => seq![p],
            _ => Seq::empty(),
        });
    }
}

proof fn lemma_prints_none(a: Seq<Effect>)
    requires
        forall|i: int| 0 <= i < a.len() ==> !(a[i] is Print),
    ensures
        prints(a) == Seq::<DriverEvent>::empty(),
    decreases a.len(),
{
    if a.len() > 0 {
        lemma_prints_none(a.drop_last());
        assert(prints(a) =~= Seq::<DriverEvent>::empty());
    }
}

proof fn lemma_prints_one(p: DriverEvent)
    ensures
        prints(seq![Effect::Print(p)]) == seq![p],
{
    let a = seq![Effect::Print(p)];
    assert(a.drop_last() =~= Seq::<Effect>::empty());
    assert(prints(a.drop_last()) == Seq::<DriverEvent>::empty());
    assert(a.last() == Effect::Print(p));
    assert(prints(a) =~= Seq::<DriverEvent>::empty() + seq![p]);
}

/// The LED parts of the handling print nothing.
proof fn lemma_prints_led_parts()
    ensures
        prints(busy_pulse()) == Seq::<DriverEvent>::empty(),
        prints(error_sequence()) == Seq::<DriverEvent>::empty(),
        prints(settle()) == Seq::<DriverEvent>::empty(),
{
    lemma_prints_none(busy_pulse());
    lemma_prints_none(error_sequence());
    lemma_prints_none(settle());
}

/// Items whose prices add up to no more than the cap, rung up from an idle
/// till: the total is their sum, and the print driver gets one header at the
/// start and then one line per item, in the order of the presses.
pub proof fn lemma_items_add_up(events: Seq<InputEvent>)
    requires
        forall|i: int| 0 <= i < events.len() ==> #[trigger] events[i] is ProduceButtonPressed,
        sum_prices(events) <= PRICE_CAP,
    ensures
        run(idle(), events).0.accumulated_price == sum_prices(events),
        run(idle(), events).0.active == (events.len() > 0),
        prints(run(idle(), events).1) == if events.len() == 0 {
            Seq::<DriverEvent>::empty()
        } else {
            seq![DriverEvent::PrintHeader] + Seq::new(events.len(), |i: int| line_of(events[i]))
        },
    decreases events.len(),
{
    if events.len() > 0 {
        let init = events.drop_last();
        let e = events.last();
        assert(e is ProduceButtonPressed);
        assert forall|i: int| 0 <= i < init.len() implies #[trigger] init[i] is ProduceButtonPressed by {
            assert(init[i] == events[i]);
        }
        lemma_sum_prices_nonneg(init);
        lemma_items_add_up(init);
        let before = run(idle(), init);
        let last = step(before.0, e);
        lemma_prints_led_parts();
        if let InputEvent::ProduceButtonPressed { image, price } = e {
            let opening = if before.0.active {
                Seq::<Effect>::empty()
            } else {
                seq![Effect::Print(DriverEvent::PrintHeader)]
            };
            let line = seq![Effect::Print(DriverEvent::PrintLine { image, price })];
            assert(last.1 == busy_pulse() + opening + line + settle());
            lemma_prints_concat(busy_pulse(), opening);
            lemma_prints_concat(busy_pulse() + opening, line);
            lemma_prints_concat(busy_pulse() + opening + line, settle());
            lemma_prints_concat(before.1, last.1);
            lemma_prints_one(DriverEvent::PrintLine { image, price });
            if before.0.active {
                assert(prints(opening) =~= Seq::<DriverEvent>::empty());
            } else {
                lemma_prints_one(DriverEvent::PrintHeader);
            }
            let lines = Seq::new(events.len(), |i: int| line_of(events[i]));
            let init_lines = Seq::new(init.len(), |i: int| line_of(init[i]));
            assert(lines =~= init_lines.push(line_of(e)));
            if init.len() == 0 {
                assert(prints(before.1) =~= Seq::<DriverEvent>::empty());
                assert(prints(run(idle(), events).1) =~= seq![DriverEvent::PrintHeader] + lines);
            } else {
                assert(prints(run(idle(), events).1) =~= seq![DriverEvent::PrintHeader] + lines);
            }
        }
    }
}

proof fn lemma_sum_prices_nonneg(events: Seq<InputEvent>)
    ensures
        sum_prices(events) >= 0,
    decreases events.len(),
{
    if events.len() > 0 {
        lemma_sum_prices_nonneg(events.drop_last());
    }
}

/// Void with no transaction open: the error sequence, nothing printed, and the
/// till stays idle at zero.
pub proof fn lemma_void_when_idle()
    ensures
        step(idle(), InputEvent::VoidButtonPressed) == (idle(), busy_pulse() + error_sequence() + settle()),
        prints(step(idle(), InputEvent::VoidButtonPressed).1) == Seq::<DriverEvent>::empty(),
{
    lemma_prints_led_parts();
    lemma_prints_concat(busy_pulse(), error_sequence());
    lemma_prints_concat(busy_pulse() + error_sequence(), settle());
    assert(prints(busy_pulse()) + prints(error_sequence()) =~= Seq::<DriverEvent>::empty());
    assert(Seq::<DriverEvent>::empty() + prints(settle()) =~= Seq::<DriverEvent>::empty());
}

/// Total on an open transaction prints its total once and closes it; a second
/// Total straight after finds the till idle and gives the error sequence.
pub proof fn lemma_total_closes(p: u16)
    requires
        p <= PRICE_CAP,
    ensures
        step(TransactionState { active: true, accumulated_price: p }, InputEvent::TotalButtonPressed).0
            == idle(),
        prints(
            step(TransactionState { active: true, accumulated_price: p }, InputEvent::TotalButtonPressed).1,
        ) == seq![DriverEvent::PrintTotal { price: p }],
        step(idle(), InputEvent::TotalButtonPressed) == (idle(), busy_pulse() + error_sequence() + settle()),
{
    let t = seq![Effect::Print(DriverEvent::PrintTotal { price: p })];
    lemma_prints_led_parts();
    lemma_prints_one(DriverEvent::PrintTotal { price: p });
    lemma_prints_concat(busy_pulse(), t);
    lemma_prints_concat(busy_pulse() + t, settle());
    assert(Seq::<DriverEvent>::empty() + seq![DriverEvent::PrintTotal { price: p }] =~= seq![
        DriverEvent::PrintTotal { price: p },
    ]);
    assert(seq![DriverEvent::PrintTotal { price: p }] + Seq::<DriverEvent>::empty() =~= seq![
        DriverEvent::PrintTotal { price: p },
    ]);
}

} // verus!
