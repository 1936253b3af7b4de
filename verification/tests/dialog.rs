use aria_shell::dialog::{surface_size, Dialog, Dismissal, PointerEvent};

#[test]
fn a_press_outside_closes_on_its_release() {
    let mut d = Dismissal::new();
    assert!(!d.pointer(true, PointerEvent::Released), "a release alone");
    assert!(!d.pointer(true, PointerEvent::PressedOutside), "not on the press");
    assert!(!d.pointer(false, PointerEvent::Released), "another window's release");
    assert!(d.pointer(true, PointerEvent::Released));
    assert!(!d.pointer(true, PointerEvent::Released), "once");
    assert!(!d.pointer(false, PointerEvent::PressedOutside));
    assert!(!d.pointer(true, PointerEvent::Released), "a press elsewhere is not ours");
}

#[test]
fn a_dialog_and_its_grabs() {
    let mut d = Dialog::open(10, 1, (0, 300), vec![(11, 1), (12, 2)]);
    assert_eq!(d.windows(), vec![10, 11, 12]);
    assert!(d.owns(10) && d.owns(12) && !d.owns(13));
    assert!(d.is_grab(11) && !d.is_grab(10) && d.is_window(10));
    assert_eq!(surface_size((0, 300)), (1, 300));
    assert_eq!(d.resize((500, 0)), (500, 1));
    assert_eq!(d.size, (500, 0));
    assert!(!d.pointer(11, PointerEvent::PressedOutside));
    assert!(!d.pointer(13, PointerEvent::Released), "not one of its windows");
    assert!(d.pointer(10, PointerEvent::Released), "the release after a press outside");
    assert!(!d.pointer(10, PointerEvent::Released));
}
