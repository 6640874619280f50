use asteria::segment::{SegmentBuilder, ViewportSegment};

#[test]
fn segments_rebuild_carries_generations() {
    let mut b = SegmentBuilder::new();
    assert!(b.is_empty());
    assert_eq!(b.build_segments(4), Ok(()));
    assert_eq!(b.len(), 4);
    assert_eq!(b.dirty_segments(), vec![0, 1, 2, 3]);
    assert!(b.segments.iter().all(|s| s.generation == 1));
    b.mark_clean(1);
    assert_eq!(b.segments[1], ViewportSegment { id: 1, dirty: false, generation: 2 });
    assert_eq!(b.build_segments(2), Ok(()));
    assert_eq!(b.segments[0].generation, 2);
    assert_eq!(b.segments[1].generation, 3);
    assert!(b.segments.iter().all(|s| s.dirty));
}

#[test]
fn segments_dirty_and_clean_lists() {
    let mut b = SegmentBuilder::new();
    b.build_segments(3).unwrap();
    b.mark_clean(0);
    b.mark_clean(2);
    assert_eq!(b.dirty_segments(), vec![1]);
    assert_eq!(b.clean_segments(), vec![0, 2]);
    b.invalidate_segment(2);
    assert_eq!(b.dirty_segments(), vec![1, 2]);
    b.mark_clean(1);
    b.mark_clean(2);
    b.invalidate_where(&[false, true, false]);
    assert_eq!(b.dirty_segments(), vec![1]);
    b.invalidate_all();
    assert_eq!(b.clean_segments(), Vec::<u16>::new());
    b.invalidate_segment(9);
    b.mark_clean(9);
    assert_eq!(b.len(), 3);
}

#[test]
fn segments_too_many_is_an_error() {
    let mut b = SegmentBuilder::new();
    assert_eq!(
        b.build_segments(70000),
        Err("Viewport height exceeds maximum segment count".to_string())
    );
    assert_eq!(b.len(), 65535);
    assert_eq!(b.build_segments(65536), Ok(()));
    assert_eq!(b.len(), 65536);
    assert_eq!(b.segments[65535].id, 65535);
}
