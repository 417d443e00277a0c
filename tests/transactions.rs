use pos_firmware::images::Images;
use pos_firmware::led::LedState;
use pos_firmware::printer::DriverEvent;
use pos_firmware::state::{Effect, InputEvent, TransactionState};
use pos_firmware::color::RGBW;

fn prints(effects: &[Effect]) -> Vec<DriverEvent> {
    effects
        .iter()
        .filter_map(|e| match e {
            Effect::Print(p) => Some(*p),
            _ => None,
        })
        .collect()
}

fn alert_flashes(effects: &[Effect]) -> usize {
    effects
        .iter()
        .filter(|e| **e == Effect::Led(LedState::Color(RGBW::new(128, 0, 0, 0))))
        .count()
}

fn produce(image: Images, price: u16) -> InputEvent {
    InputEvent::ProduceButtonPressed { image, price }
}

#[test]
fn items_add_up_with_one_header() {
    let mut s = TransactionState::new();
    let mut all = Vec::new();
    for (img, price) in [(Images::Garlic, 1), (Images::Corn, 3), (Images::Croissant, 8)] {
        all.extend(s.handle(produce(img, price)));
    }
    assert_eq!(s.accumulated_price, 12);
    assert!(s.active);
    assert_eq!(
        prints(&all),
        vec![
            DriverEvent::PrintHeader,
            DriverEvent::PrintLine { image: Images::Garlic, price: 1 },
            DriverEvent::PrintLine { image: Images::Corn, price: 3 },
            DriverEvent::PrintLine { image: Images::Croissant, price: 8 },
        ]
    );
    assert_eq!(alert_flashes(&all), 0);
}

#[test]
fn void_when_idle_flashes_error() {
    let mut s = TransactionState::new();
    let effects = s.handle(InputEvent::VoidButtonPressed);
    assert!(prints(&effects).is_empty());
    assert_eq!(alert_flashes(&effects), 3);
    assert!(!s.active);
    assert_eq!(s.accumulated_price, 0);
    assert_eq!(
        effects,
        vec![
            Effect::Led(LedState::Color(RGBW::new(0, 0, 64, 0))),
            Effect::Led(LedState::Noop),
            Effect::Led(LedState::Color(RGBW::new(128, 0, 0, 0))),
            Effect::Delay(200),
            Effect::Led(LedState::Default),
            Effect::Delay(200),
            Effect::Led(LedState::Color(RGBW::new(128, 0, 0, 0))),
            Effect::Delay(200),
            Effect::Led(LedState::Default),
            Effect::Delay(200),
            Effect::Led(LedState::Color(RGBW::new(128, 0, 0, 0))),
            Effect::Delay(200),
            Effect::Led(LedState::Default),
            Effect::Delay(200),
            Effect::Delay(400),
            Effect::Led(LedState::Default),
            Effect::Led(LedState::Noop),
        ]
    );
}

#[test]
fn over_cap_addition_is_refused() {
    let mut s = TransactionState::new();
    let first = s.handle(produce(Images::Tomato, 500));
    assert_eq!(
        prints(&first),
        vec![DriverEvent::PrintHeader, DriverEvent::PrintLine { image: Images::Tomato, price: 500 }]
    );
    assert_eq!(s.accumulated_price, 500);
    let second = s.handle(produce(Images::Tomato, 500));
    assert!(prints(&second).is_empty());
    assert_eq!(alert_flashes(&second), 3);
    assert_eq!(s.accumulated_price, 500);
    assert!(s.active);
}

#[test]
fn exactly_at_cap_is_accepted() {
    let mut s = TransactionState::new();
    s.handle(produce(Images::Corn, 500));
    let effects = s.handle(produce(Images::Corn, 499));
    assert_eq!(prints(&effects), vec![DriverEvent::PrintLine { image: Images::Corn, price: 499 }]);
    assert_eq!(s.accumulated_price, 999);
}

#[test]
fn huge_price_does_not_overflow() {
    let mut s = TransactionState::new();
    let effects = s.handle(produce(Images::Pumpkin, u16::MAX));
    assert_eq!(prints(&effects), vec![DriverEvent::PrintHeader]);
    assert_eq!(alert_flashes(&effects), 3);
    assert!(s.active);
    assert_eq!(s.accumulated_price, 0);
}

#[test]
fn total_prints_once_then_errors() {
    let mut s = TransactionState::new();
    s.handle(produce(Images::Carrot, 2));
    s.handle(produce(Images::Mushroom, 5));
    let total = s.handle(InputEvent::TotalButtonPressed);
    assert_eq!(prints(&total), vec![DriverEvent::PrintTotal { price: 7 }]);
    assert_eq!(alert_flashes(&total), 0);
    assert!(!s.active);
    assert_eq!(s.accumulated_price, 0);
    let again = s.handle(InputEvent::TotalButtonPressed);
    assert!(prints(&again).is_empty());
    assert_eq!(alert_flashes(&again), 3);
    assert!(!s.active);
}

#[test]
fn void_closes_open_transaction() {
    let mut s = TransactionState::new();
    s.handle(produce(Images::Aubergine, 6));
    let effects = s.handle(InputEvent::VoidButtonPressed);
    assert_eq!(prints(&effects), vec![DriverEvent::PrintVoid]);
    assert!(!s.active);
    assert_eq!(s.accumulated_price, 0);
    let next = s.handle(produce(Images::Garlic, 1));
    assert_eq!(
        prints(&next),
        vec![DriverEvent::PrintHeader, DriverEvent::PrintLine { image: Images::Garlic, price: 1 }]
    );
}

#[test]
fn every_input_pulses_busy_then_ambient() {
    let mut s = TransactionState::new();
    let effects = s.handle(produce(Images::Garlic, 1));
    assert_eq!(effects[0], Effect::Led(LedState::Color(RGBW::new(0, 0, 64, 0))));
    assert_eq!(effects[1], Effect::Led(LedState::Noop));
    let n = effects.len();
    assert_eq!(effects[n - 3], Effect::Delay(400));
    assert_eq!(effects[n - 2], Effect::Led(LedState::Default));
    assert_eq!(effects[n - 1], Effect::Led(LedState::Noop));
}
