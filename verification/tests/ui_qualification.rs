use office_document::ui_qualification::{
    fnv1a64, qualification_tile, snapshot_stress_steps, SnapshotStress, StressFailure, EXPECTED_TILE_BYTES,
    EXPECTED_TILE_FNV1A64, QUALIFICATION_PAGE_COUNT, TILE_HEIGHT, TILE_WIDTH,
};

#[test]
fn qualification_tile_matches_render_transfer_data_class() {
    let first = qualification_tile();
    let second = qualification_tile();

    assert_eq!(first.width(), TILE_WIDTH);
    assert_eq!(first.height(), TILE_HEIGHT);
    assert_eq!(first.as_bytes().len(), EXPECTED_TILE_BYTES);
    assert_eq!(first.as_bytes(), second.as_bytes());
    assert_eq!(fnv1a64(first.as_bytes()), EXPECTED_TILE_FNV1A64);
}

#[test]
fn qualification_page_model_is_large_and_bounded() {
    assert_eq!(QUALIFICATION_PAGE_COUNT, 96);
    assert!(QUALIFICATION_PAGE_COUNT > 50);
    assert!(QUALIFICATION_PAGE_COUNT < 1_000);
}

#[test]
fn fnv1a64_of_known_inputs() {
    assert_eq!(fnv1a64(&[]), 1_469_598_103_934_665_603);
    assert_eq!(fnv1a64(b"a"), 4_953_267_810_257_967_366);
}

#[test]
fn tile_pixels_follow_margin_rule_and_page_colours() {
    let tile = qualification_tile();
    let bytes = tile.as_bytes();
    let pixel = |x: usize, y: usize| &bytes[(y * 256 + x) * 4..(y * 256 + x) * 4 + 4];
    assert_eq!(pixel(0, 0), &[244, 244, 244, 255]);
    assert_eq!(pixel(100, 42), &[205, 212, 220, 255]);
    assert_eq!(pixel(100, 44), &[255, 255, 255, 255]);
    assert_eq!(pixel(220, 42), &[255, 255, 255, 255]);
}

#[test]
fn stress_run_folds_every_scheduled_snapshot() {
    let mut stress = SnapshotStress::new(2, 1).unwrap();
    let steps = snapshot_stress_steps();
    assert_eq!(steps.len(), 8);
    assert_eq!(steps[0], (0, 70));
    let frame = [1u8, 2, 3, 4, 5, 6, 7, 8];
    for step in 0..8 {
        assert_eq!(stress.next_step(), Some(steps[step]));
        stress.record_snapshot(2, 1, &frame, 1_000 + step as u128).unwrap();
    }
    assert_eq!(stress.next_step(), None);
    assert_eq!(stress.record_snapshot(2, 1, &frame, 1), Err(StressFailure::ScheduleComplete));
    let report = stress.finish(5_000).unwrap();
    assert_eq!(report.snapshots, 8);
    assert_eq!(report.pages, 96);
    assert_eq!(report.slowest_nanos, 1_007);
    assert_eq!(report.checksum_xor, 0);
}

#[test]
fn stress_run_refuses_wrong_snapshots_and_slow_runs() {
    let mut stress = SnapshotStress::new(2, 1).unwrap();
    assert_eq!(
        stress.record_snapshot(3, 1, &[0; 12], 1),
        Err(StressFailure::SnapshotWidthMismatch { expected: 2, actual: 3 })
    );
    assert_eq!(
        stress.record_snapshot(2, 1, &[0; 4], 1),
        Err(StressFailure::SnapshotLengthMismatch { expected: 8, actual: 4 })
    );
    assert_eq!(
        stress.record_snapshot(2, 1, &[0; 8], 10_000_000_000),
        Err(StressFailure::FrameTooSlow { step: 0, nanos: 10_000_000_000 })
    );
    assert_eq!(stress.finish(1), Err(StressFailure::ScheduleIncomplete { recorded: 0 }));
    assert_eq!(SnapshotStress::new(u32::MAX, 2), Err(StressFailure::WindowAreaTooLarge { width: u32::MAX, height: 2 }));
}
