use tangerine::renderer::{
    accepts_resize, delta_nanos, recovery_for, InstanceCapacity, RecoveryAction, SurfaceIssue,
};

#[test]
fn instance_buffer_grows_monotonically() {
    // Frames asking for [10, 3, 50, 2] instances reallocate only on the
    // first and third: the capacity never shrinks below its high-water mark.
    let mut cap = InstanceCapacity::new();
    assert_eq!(cap.count, 1);
    assert!(cap.reserve(10));
    assert_eq!(cap.count, 10);
    assert!(!cap.reserve(3));
    assert_eq!(cap.count, 10);
    assert!(cap.reserve(50));
    assert_eq!(cap.count, 50);
    assert!(!cap.reserve(2));
    assert_eq!(cap.count, 50);
}

#[test]
fn reserve_exact_boundary_does_not_reallocate() {
    let mut cap = InstanceCapacity::new();
    cap.reserve(8);
    assert!(!cap.reserve(8));
    assert_eq!(cap.count, 8);
}

#[test]
fn presentation_failures_follow_the_recovery_policy() {
    assert_eq!(recovery_for(SurfaceIssue::Lost), RecoveryAction::Reconfigure);
    assert_eq!(recovery_for(SurfaceIssue::OutOfMemory), RecoveryAction::Terminate);
    assert_eq!(recovery_for(SurfaceIssue::Other), RecoveryAction::DropFrame);
}

#[test]
fn zero_sized_resizes_are_ignored() {
    assert!(!accepts_resize(0, 600));
    assert!(!accepts_resize(800, 0));
    assert!(accepts_resize(800, 600));
    assert!(accepts_resize(1, 1));
}

#[test]
fn frame_delta_time() {
    assert_eq!(delta_nanos(100, Some(40)), 60);
    assert_eq!(delta_nanos(100, None), 0);
    assert_eq!(delta_nanos(5, Some(5)), 0);
}
