use particle_filter::visulization::RerunVisulization;

#[test]
fn test_new_rerun_visulization() {
    let visulization = RerunVisulization::new();
    assert_eq!(visulization.current_frame, 0);
}

#[test]
fn frame_counter_advances() {
    let mut v = RerunVisulization::new();
    v.advance_frame();
    v.advance_frame();
    assert_eq!(v.current_frame, 2);
}
