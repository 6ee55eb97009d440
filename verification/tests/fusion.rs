use fbtouch::gesture::Gesture;
use fbtouch::input::{fragment_from_event, InputEvent};
use fbtouch::point::{Point, StreamedPoint, Timeval};
use fbtouch::streamed_data::{StreamedData, StreamedState};
use fbtouch::swipe::{StreamedSwipe, Swipe, SwipeFragment};

fn point(sec: isize, usec: isize, x: isize, y: isize) -> Point {
    Point { time: Timeval(sec, usec), x, y }
}

#[test]
fn fusion_completeness_x_then_y() {
    let t = Timeval(3, 500);
    let mut sp = StreamedPoint::default();
    let first = sp.update(StreamedPoint::X(t, 10));
    assert!(matches!(first, StreamedState::Incomplete));
    let second = sp.update(StreamedPoint::Y(t, 20));
    match second {
        StreamedState::Complete(p) => {
            assert_eq!(p.time, t);
            assert_eq!(p.x, 10);
            assert_eq!(p.y, 20);
        }
        _ => panic!("expected a completed point"),
    }
    assert_eq!(sp, StreamedPoint::Nothing);
}

#[test]
fn fusion_completeness_y_then_x() {
    let t = Timeval(3, 500);
    let mut sp = StreamedPoint::default();
    let first = sp.update(StreamedPoint::Y(t, 20));
    assert!(matches!(first, StreamedState::Incomplete));
    let second = sp.update(StreamedPoint::X(t, 10));
    match second {
        StreamedState::Complete(p) => {
            assert_eq!(p.time, t);
            assert_eq!(p.x, 10);
            assert_eq!(p.y, 20);
        }
        _ => panic!("expected a completed point"),
    }
    assert_eq!(sp, StreamedPoint::Nothing);
}

#[test]
fn stale_fragment_override() {
    let t1 = Timeval(1, 0);
    let t2 = Timeval(2, 0);
    let mut sp = StreamedPoint::default();
    let first = sp.update(StreamedPoint::X(t1, 5));
    assert!(matches!(first, StreamedState::Incomplete));
    let second = sp.update(StreamedPoint::Y(t2, 7));
    assert!(matches!(second, StreamedState::Incomplete));
    assert_eq!(sp, StreamedPoint::Y(t2, 7));
}

#[test]
fn same_axis_last_write_wins() {
    let mut sp = StreamedPoint::default();
    let _ = sp.update(StreamedPoint::X(Timeval(1, 0), 5));
    let r = sp.update(StreamedPoint::X(Timeval(2, 0), 9));
    assert!(matches!(r, StreamedState::Incomplete));
    assert_eq!(sp, StreamedPoint::X(Timeval(2, 0), 9));
}

#[test]
fn swipe_monotonicity_drops_late_points() {
    let mut s = Swipe::new(point(1, 0, 0, 0));
    s.push(point(2, 0, 1, 1));
    assert_eq!(s.points.len(), 2);
    // same timestamp as the last point: dropped
    s.push(point(2, 0, 9, 9));
    assert_eq!(s.points.len(), 2);
    // earlier timestamp: dropped
    s.push(point(1, 500, 9, 9));
    assert_eq!(s.points.len(), 2);
    // strictly later: kept
    s.push(point(2, 1, 3, 3));
    assert_eq!(s.points.len(), 3);
    assert_eq!(s.last().x, 3);
}

#[test]
fn fusion_reset_on_end() {
    let t1 = Timeval(1, 0);
    let t2 = Timeval(2, 0);
    let mut ss = StreamedSwipe::default();
    let r1 = ss.update(SwipeFragment::PointFragment(StreamedPoint::X(t1, 10)));
    assert!(matches!(r1, StreamedState::Incomplete));
    let r2 = ss.update(SwipeFragment::PointFragment(StreamedPoint::Y(t1, 11)));
    match r2 {
        StreamedState::Standalone(s) => assert_eq!(s.points.len(), 1),
        _ => panic!("expected a standalone swipe"),
    }
    let _ = ss.update(SwipeFragment::PointFragment(StreamedPoint::X(t2, 20)));
    let r3 = ss.update(SwipeFragment::PointFragment(StreamedPoint::Y(t2, 21)));
    match r3 {
        StreamedState::Standalone(s) => assert_eq!(s.points.len(), 2),
        _ => panic!("expected a standalone swipe"),
    }
    let r4 = ss.update(SwipeFragment::End);
    match r4 {
        StreamedState::Complete(s) => {
            assert!(s.finished);
            assert_eq!(s.points.len(), 2);
        }
        _ => panic!("expected a completed swipe"),
    }
    // after End completed a swipe, the next fused point starts a new swipe
    let t3 = Timeval(3, 0);
    let _ = ss.update(SwipeFragment::PointFragment(StreamedPoint::X(t3, 30)));
    let r5 = ss.update(SwipeFragment::PointFragment(StreamedPoint::Y(t3, 31)));
    match r5 {
        StreamedState::Standalone(s) => {
            assert_eq!(s.points.len(), 1);
            assert!(!s.finished);
        }
        _ => panic!("expected a brand-new swipe"),
    }
}

#[test]
fn end_without_contact_is_a_no_op() {
    let mut ss = StreamedSwipe::default();
    let r = ss.update(SwipeFragment::End);
    assert!(matches!(r, StreamedState::Incomplete));
}

#[test]
fn tap_on_narrow_finished_swipe() {
    let mut s = Swipe::new(point(4, 900_000, 0, 0));
    s.push(point(5, 200_000, 10, 4));
    s.end();
    match s.tap(20) {
        Some(Gesture::Tap(p)) => {
            assert_eq!(p.x, 5);
            assert_eq!(p.y, 2);
            assert_eq!(p.time, Timeval(0, 300_000));
        }
        _ => panic!("expected a tap"),
    }
}

#[test]
fn wide_swipe_is_drag_only() {
    let mut s = Swipe::new(point(1, 0, 0, 0));
    s.push(point(2, 0, 100, 3));
    s.end();
    assert!(s.tap(20).is_none());
    match s.drag() {
        Some(Gesture::Drag(a, b)) => {
            assert_eq!((a.x, a.y), (0, 0));
            assert_eq!((b.x, b.y), (100, 3));
        }
        _ => panic!("expected a drag"),
    }
}

#[test]
fn unfinished_swipe_never_taps() {
    let s = Swipe::new(point(1, 0, 0, 0));
    assert!(s.tap(20).is_none());
    assert!(matches!(s.drag(), Some(Gesture::Drag(_, _))));
}

#[test]
fn duration_borrows_across_the_microsecond_boundary() {
    let mut s = Swipe::new(point(4, 900_000, 0, 0));
    s.push(point(5, 200_000, 1, 1));
    assert_eq!(s.duration(), Timeval(0, 300_000));
}

#[test]
fn duration_without_borrow() {
    let mut s = Swipe::new(point(4, 100_000, 0, 0));
    s.push(point(6, 400_000, 1, 1));
    assert_eq!(s.duration(), Timeval(2, 300_000));
}

#[test]
fn vector_is_net_displacement() {
    let mut s = Swipe::new(point(1, 0, 3, 10));
    s.push(point(2, 0, 8, 4));
    assert_eq!(s.vector(), (5, -6));
}

#[test]
fn timeval_order_is_lexicographic() {
    assert!(Timeval(1, 999_999).before(&Timeval(2, 0)));
    assert!(Timeval(2, 5).before(&Timeval(2, 6)));
    assert!(!Timeval(2, 6).before(&Timeval(2, 6)));
    assert!(!Timeval(3, 0).before(&Timeval(2, 999_999)));
}

#[test]
fn from_timeval_reads_both_fields() {
    let t = libc::timeval { tv_sec: 7, tv_usec: 123 };
    assert_eq!(Timeval::from_timeval(t), Timeval(7, 123));
}

#[test]
fn events_translate_to_fragments() {
    let t = Timeval(1, 2);
    assert!(matches!(
        fragment_from_event(&InputEvent::PartialX(5, t)),
        Some(SwipeFragment::PointFragment(StreamedPoint::X(Timeval(1, 2), 5)))
    ));
    assert!(matches!(
        fragment_from_event(&InputEvent::PartialY(6, t)),
        Some(SwipeFragment::PointFragment(StreamedPoint::Y(Timeval(1, 2), 6)))
    ));
    assert!(matches!(fragment_from_event(&InputEvent::ButtonDown(0)), Some(SwipeFragment::End)));
    assert!(fragment_from_event(&InputEvent::Unknown).is_none());
}

#[test]
fn reset_clears_the_session() {
    let mut ss = StreamedSwipe::default();
    let t = Timeval(1, 0);
    let _ = ss.update(SwipeFragment::PointFragment(StreamedPoint::X(t, 1)));
    let _ = ss.update(SwipeFragment::PointFragment(StreamedPoint::Y(t, 2)));
    ss.reset();
    // a reset session treats End as a no-op again
    assert!(matches!(ss.update(SwipeFragment::End), StreamedState::Incomplete));
}
