use gpt_hp_bar::poll::{poll_action, PollAction};

#[test]
fn fetch_at_start_and_after_the_interval() {
    assert_eq!(poll_action(0, 60), PollAction::PlaceAndFetch);
    assert_eq!(poll_action(60, 60), PollAction::PlaceAndFetch);
    assert_eq!(poll_action(61, 60), PollAction::PlaceAndFetch);
    assert_eq!(poll_action(59, 60), PollAction::Wait);
    assert_eq!(poll_action(58, 60), PollAction::Follow);
}

#[test]
fn follow_every_two_seconds_in_between() {
    for e in 1..60u32 {
        let want = if e % 2 == 0 { PollAction::Follow } else { PollAction::Wait };
        assert_eq!(poll_action(e, 60), want, "{e}");
    }
}

#[test]
fn interval_is_clamped_to_30_600() {
    assert_eq!(poll_action(30, 10), PollAction::PlaceAndFetch);
    assert_eq!(poll_action(29, 10), PollAction::Wait);
    assert_eq!(poll_action(600, 5000), PollAction::PlaceAndFetch);
    assert_eq!(poll_action(598, 5000), PollAction::Follow);
}
