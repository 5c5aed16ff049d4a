use world_scene::per_frame::PerFrame;

#[test]
fn per_frame_cycles_through_slots() {
    let mut frames = PerFrame::new(|i| i * 10);
    assert_eq!(*frames.current(), 0);
    assert_eq!(*frames.advance(), 10);
    assert_eq!(*frames.advance(), 20);
    assert_eq!(*frames.advance(), 0);
    assert_eq!(*frames.current(), 0);
}

#[test]
fn per_frame_current_mut_writes_current_slot() {
    let mut frames = PerFrame::new(|_| 0u32);
    *frames.current_mut() = 5;
    *frames.advance() = 6;
    assert_eq!(*frames.current(), 6);
    frames.advance();
    frames.advance();
    assert_eq!(*frames.current(), 5);
}
