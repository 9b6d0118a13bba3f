use fullframe::recording::{ActiveRecording, RecordingManager};

fn rec(handle: u32, started_ms: u64) -> ActiveRecording<u32> {
    ActiveRecording { handle, started_ms, temp_path: "/tmp/x.mp4".to_string() }
}

#[test]
fn one_recording_at_a_time() {
    let mut m: RecordingManager<u32> = RecordingManager::new();
    assert!(!m.is_recording());
    assert_eq!(m.elapsed_ms(5_000), 0);
    assert!(m.check_idle().is_ok());
    m.start(rec(7, 1_000));
    assert!(m.is_recording());
    assert_eq!(m.check_idle().unwrap_err(), "already recording");
    assert_eq!(m.elapsed_ms(3_500), 2_500);
    assert_eq!(m.elapsed_ms(500), 0);
    let r = m.stop().ok().unwrap();
    assert_eq!((r.handle, r.started_ms), (7, 1_000));
    assert!(!m.is_recording());
    assert_eq!(m.stop().err().unwrap(), "not recording");
}
