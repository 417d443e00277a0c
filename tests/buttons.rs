use pos_firmware::images::Images;
use pos_firmware::input::{ButtonWatcher, WatchAction};
use pos_firmware::state::InputEvent;

#[test]
fn held_press_sends_one_event() {
    let mut w = ButtonWatcher::void();
    let mut sent = 0;
    let mut looks = vec![true; 7];
    looks.push(false);
    for pressed in looks {
        if let WatchAction::Send(ev) = w.observe(pressed) {
            assert_eq!(ev, InputEvent::VoidButtonPressed);
            sent += 1;
        }
    }
    assert_eq!(sent, 1);
    assert!(!w.held);
}

#[test]
fn watcher_actions_follow_the_pin() {
    let mut w = ButtonWatcher::total();
    assert_eq!(w.observe(false), WatchAction::Rearm);
    assert_eq!(w.observe(true), WatchAction::Send(InputEvent::TotalButtonPressed));
    assert_eq!(w.observe(true), WatchAction::Poll);
    assert_eq!(w.observe(false), WatchAction::Rearm);
    assert_eq!(w.observe(true), WatchAction::Send(InputEvent::TotalButtonPressed));
}

#[test]
fn item_buttons_follow_the_layout() {
    let expected = [
        (Images::Garlic, 1),
        (Images::Carrot, 2),
        (Images::Corn, 3),
        (Images::Tomato, 4),
        (Images::Mushroom, 5),
        (Images::Aubergine, 6),
        (Images::Pumpkin, 7),
        (Images::Croissant, 8),
    ];
    for (slot, (image, price)) in expected.iter().enumerate() {
        let w = ButtonWatcher::item(slot);
        assert_eq!(w.binding, InputEvent::ProduceButtonPressed { image: *image, price: *price });
        assert!(!w.held);
    }
}
