use aria_shell::toast::{age, Change, Edges, Size, Toasts};

#[test]
fn ages() {
    let t0 = 1_700_000_000u64;
    let at = |secs: u64| age(t0, t0 + secs);
    assert_eq!(at(0).as_deref(), Some("now"));
    assert_eq!(at(59).as_deref(), Some("now"));
    assert_eq!(at(60).as_deref(), Some("1 min"));
    assert_eq!(at(3599).as_deref(), Some("59 min"));
    assert_eq!(at(3600).as_deref(), Some("1 h"));
    assert_eq!(at(86399).as_deref(), Some("23 h"));
    assert_eq!(at(86400).as_deref(), Some("yesterday"));
    assert_eq!(at(200_000), None, "the date instead");
    // A clock that went back: still "now".
    assert_eq!(age(t0 + 10, t0).as_deref(), Some("now"));
}

fn size(width: u32, height: u32) -> Size {
    Size { width, height }
}

const EDGE: Edges = Edges { top: 10, right: 12, bottom: 14, left: 16 };

#[test]
fn toasts_stack_per_output_from_the_corner() {
    let mut t: Toasts<u8> = Toasts::new();
    t.add(1, 100, 7);
    t.add(2, 101, 7);
    t.add(3, 102, 9);
    assert!(t.has(101) && !t.has(5));
    let items = [(100, size(300, 80)), (101, size(300, 50)), (102, size(300, 40)), (55, size(1, 1))];
    assert!(t.fits(&items, true, EDGE, 6));
    let changes = t.layout(&items, true, EDGE, 6);
    assert_eq!(changes.len(), 3, "one new surface per toast");
    let opened: Vec<(u8, u32, i32)> = changes
        .iter()
        .map(|c| match c {
            Change::Open { window, output, margin, .. } => (*window, *output, margin.top),
            other => panic!("unexpected {other:?}"),
        })
        .collect();
    // 101 sits below 100 on output 7 (80 high, 6 apart); 102 is alone on 9.
    assert_eq!(opened, [(1, 7, 10), (2, 7, 96), (3, 9, 10)]);
    let m = t.list()[1].margin;
    assert_eq!((m.top, m.right, m.bottom, m.left), (96, 12, 0, 16));
    assert!(t.layout(&items, true, EDGE, 6).is_empty(), "nothing changed");
    // The first one grows: it is resized, the one below it moves.
    let items = [(100, size(300, 90)), (101, size(300, 50)), (102, size(300, 40))];
    let changes = t.layout(&items, true, EDGE, 6);
    assert_eq!(changes.len(), 2);
    assert!(matches!(changes[0], Change::Resize { window: 1, size: Size { width: 300, height: 90 } }));
    assert!(matches!(changes[1], Change::Move { window: 2, margin: Edges { top: 106, .. } }));
}

#[test]
fn bottom_corners_count_from_the_bottom() {
    let mut t: Toasts<u8> = Toasts::new();
    t.add(1, 1, 0);
    t.add(2, 2, 0);
    let changes = t.layout(&[(1, size(10, 20)), (2, size(10, 30))], false, EDGE, 4);
    match changes[1] {
        Change::Open { margin, .. } => assert_eq!((margin.top, margin.bottom), (0, 14 + 24)),
        other => panic!("unexpected {other:?}"),
    }
}

#[test]
fn gone_notifications_close_their_toasts() {
    let mut t: Toasts<u8> = Toasts::new();
    t.add(1, 10, 0);
    t.add(2, 11, 0);
    t.add(3, 12, 0);
    assert_eq!(t.remove_gone(&[12, 10]), [2]);
    assert_eq!(t.list().iter().map(|x| x.id).collect::<Vec<_>>(), [10, 12]);
    assert!(t.remove_gone(&[10, 12]).is_empty());
    assert_eq!(t.remove_gone(&[]), [1, 3]);
    assert!(t.list().is_empty());
}

#[test]
fn oversized_stacks_do_not_fit() {
    let mut t: Toasts<u8> = Toasts::new();
    t.add(1, 1, 0);
    t.add(2, 2, 0);
    let items = [(1, size(1, 2_000_000_000)), (2, size(1, 2_000_000_000))];
    assert!(!t.fits(&items, true, EDGE, 0));
    assert!(t.fits(&items[..1], true, EDGE, 0));
}
