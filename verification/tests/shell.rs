use life::control::{Action, Control, Input};

#[test]
fn starts_running_unpaused() {
    let c = Control::new(20);
    assert!(c.running);
    assert!(!c.paused);
    assert!(!c.draw_mode);
    assert_eq!(c.cell_size, 20);
    assert!(c.should_advance());
}

#[test]
fn quit_stops_running() {
    let mut c = Control::new(20);
    assert_eq!(c.handle(Input::Quit), Action::Idle);
    assert!(!c.running);

    let mut d = Control::new(20);
    assert_eq!(d.handle(Input::KeyQuit), Action::Idle);
    assert!(!d.running);
}

#[test]
fn space_toggles_pause() {
    let mut c = Control::new(20);
    c.handle(Input::KeyPause);
    assert!(c.paused);
    assert!(!c.should_advance());
    c.handle(Input::KeyPause);
    assert!(!c.paused);
    assert!(c.should_advance());
}

#[test]
fn arrows_step_only_while_paused() {
    let mut c = Control::new(20);
    assert_eq!(c.handle(Input::KeyForward), Action::Idle);
    assert_eq!(c.handle(Input::KeyBack), Action::Idle);
    c.handle(Input::KeyPause);
    assert_eq!(c.handle(Input::KeyForward), Action::Step);
    assert_eq!(c.handle(Input::KeyBack), Action::StepBack);
}

#[test]
fn reseed_key_reseeds() {
    let mut c = Control::new(20);
    assert_eq!(c.handle(Input::KeyReseed), Action::Reseed);
    assert!(c.running);
}

#[test]
fn mouse_draws_by_cell_size() {
    let mut c = Control::new(20);
    let a = c.handle(Input::MouseDown { x: 45, y: 33 });
    assert_eq!(a, Action::Draw { row: 1, col: 2 });
    assert!(c.draw_mode);
    assert!(!c.should_advance());

    let a = c.handle(Input::MouseMove { x: 0, y: 399 });
    assert_eq!(a, Action::Draw { row: 19, col: 0 });

    assert_eq!(c.handle(Input::MouseUp), Action::Idle);
    assert!(!c.draw_mode);
    assert_eq!(c.handle(Input::MouseMove { x: 45, y: 33 }), Action::Idle);
}

#[test]
fn mouse_outside_canvas_draws_nothing() {
    let mut c = Control::new(20);
    assert_eq!(c.handle(Input::MouseDown { x: -3, y: 10 }), Action::Idle);
    assert!(c.draw_mode);
    assert_eq!(c.handle(Input::MouseMove { x: 10, y: -1 }), Action::Idle);
}

#[test]
fn other_events_do_nothing() {
    let mut c = Control::new(20);
    assert_eq!(c.handle(Input::Other), Action::Idle);
    assert!(c.running);
    assert!(!c.paused);
    assert!(!c.draw_mode);
}
