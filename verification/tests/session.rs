use wlmatrix::session::{about_to_wait, window_event, Event, Reaction, GRACE_NS};

#[test]
fn input_ends_the_program_after_a_moment() {
    let late = GRACE_NS + 1;
    assert_eq!(window_event(Event::Pointer, late, true), Reaction::Exit);
    assert_eq!(window_event(Event::Key { pressed: true }, late, true), Reaction::Exit);
    assert_eq!(window_event(Event::Key { pressed: false }, late, true), Reaction::Pass);
}

#[test]
fn input_is_passed_over_in_the_first_moments() {
    assert_eq!(GRACE_NS, 700_000_000);
    assert_eq!(window_event(Event::Pointer, GRACE_NS, true), Reaction::Pass);
    assert_eq!(window_event(Event::Key { pressed: true }, 0, true), Reaction::Pass);
}

#[test]
fn closing_always_ends_the_program() {
    assert_eq!(window_event(Event::CloseRequested, 0, false), Reaction::Exit);
    assert_eq!(window_event(Event::CloseRequested, GRACE_NS + 1, true), Reaction::Exit);
}

#[test]
fn a_new_size_lays_a_new_grid() {
    let sized = |width, height| window_event(Event::Resized { width, height }, 0, true);
    assert_eq!(sized(3840, 2160), Reaction::Rebuild { width: 3840, height: 2160 });
    assert_eq!(sized(0, 2160), Reaction::Pass);
    assert_eq!(sized(3840, 0), Reaction::Pass);
}

#[test]
fn frames_are_drawn_once_there_is_a_grid() {
    assert_eq!(window_event(Event::RedrawRequested, 0, true), Reaction::Draw);
    assert_eq!(window_event(Event::RedrawRequested, 0, false), Reaction::Pass);
    assert_eq!(window_event(Event::Other, GRACE_NS + 1, true), Reaction::Pass);
}

#[test]
fn frames_are_paced_in_whole_milliseconds() {
    assert_eq!(about_to_wait(1000, 1000, 30), (33_001_000, true));
    assert_eq!(about_to_wait(1000, 0, 240), (4_001_000, true));
    assert_eq!(about_to_wait(0, 0, 1), (1_000_000_000, true));
    assert_eq!(about_to_wait(0, 0, 0), (1_000_000_000, true));
    assert_eq!(about_to_wait(7, 0, 1001), (7, true));
    assert_eq!(about_to_wait(999, 1000, 30), (1000, false));
}
