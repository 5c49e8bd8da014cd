use camguard::{EventRecorder, Frame, RecorderAction, StorageError, VideoStorage};

fn gray_frame(width: u32, height: u32, value: u8, timestamp_millis: u64) -> Frame {
    let pixels = vec![value; (width as usize) * (height as usize)];
    Frame::new(width, height, timestamp_millis, pixels)
}

#[test]
fn one_motion_episode_yields_one_start_one_end_and_a_three_frame_clip() {
    let mut recorder = EventRecorder::new();
    let motion_flags = [false, true, true, true, false];
    let mut started = 0;
    let mut ended = 0;
    let mut clips = 0;
    let mut clip_frames = 0;
    for (i, &motion) in motion_flags.iter().enumerate() {
        let frame = gray_frame(8, 8, i as u8, 1000 * i as u64);
        match recorder.observe(motion, &frame) {
            RecorderAction::Started => started += 1,
            RecorderAction::Ended => {
                ended += 1;
                let clip = recorder.flush().expect("a clip must be available");
                clips += 1;
                clip_frames = clip.len();
            }
            RecorderAction::Recording | RecorderAction::Quiet => {}
        }
    }
    assert_eq!(started, 1);
    assert_eq!(ended, 1);
    assert_eq!(clips, 1);
    assert_eq!(clip_frames, 3);
}

#[test]
fn clip_frames_keep_capture_order() {
    let mut recorder = EventRecorder::new();
    for i in 0..3u8 {
        recorder.observe(true, &gray_frame(4, 4, i, i as u64));
    }
    recorder.observe(false, &gray_frame(4, 4, 9, 9));
    let clip = recorder.flush().expect("a clip must be available");
    assert_eq!(clip.len(), 3);
    for (i, frame) in clip.iter().enumerate() {
        assert_eq!(frame.pixels[0], i as u8);
        assert_eq!(frame.timestamp_millis, i as u64);
    }
}

#[test]
fn flush_with_no_frames_fails_with_storage_error() {
    let mut recorder = EventRecorder::new();
    assert_eq!(recorder.flush().unwrap_err(), StorageError::NoFrames);
}

#[test]
fn buffer_is_empty_after_a_successful_flush() {
    let mut recorder = EventRecorder::new();
    recorder.observe(true, &gray_frame(4, 4, 1, 0));
    recorder.observe(true, &gray_frame(4, 4, 2, 1));
    assert_eq!(recorder.buffered_frames(), 2);
    let clip = recorder.flush().expect("a clip must be available");
    assert_eq!(clip.len(), 2);
    assert_eq!(recorder.buffered_frames(), 0);
    // Flushing again finds nothing: the same clip cannot be persisted twice.
    assert_eq!(recorder.flush().unwrap_err(), StorageError::NoFrames);
}

#[test]
fn quiet_frames_while_idle_do_nothing() {
    let mut recorder = EventRecorder::new();
    let frame = gray_frame(4, 4, 0, 0);
    assert_eq!(recorder.observe(false, &frame), RecorderAction::Quiet);
    assert_eq!(recorder.observe(false, &frame), RecorderAction::Quiet);
    assert_eq!(recorder.buffered_frames(), 0);
}

#[test]
fn motion_actions_follow_the_state_machine() {
    let mut recorder = EventRecorder::new();
    let frame = gray_frame(4, 4, 0, 0);
    assert_eq!(recorder.observe(true, &frame), RecorderAction::Started);
    assert_eq!(recorder.observe(true, &frame), RecorderAction::Recording);
    assert_eq!(recorder.observe(false, &frame), RecorderAction::Ended);
    assert_eq!(recorder.observe(false, &frame), RecorderAction::Quiet);
    assert_eq!(recorder.observe(true, &frame), RecorderAction::Started);
}

#[test]
fn save_video_of_no_frames_fails_with_storage_error() {
    let storage = VideoStorage::new(String::from("footage"));
    let frames: Vec<Frame> = Vec::new();
    let plan = storage.save_video(&frames, "20250101_120000", "motion_event");
    assert_eq!(plan.unwrap_err(), StorageError::NoFrames);
}

#[test]
fn save_video_plan_is_sized_to_the_first_frame() {
    let storage = VideoStorage::new(String::from("footage"));
    let frames = vec![gray_frame(16, 8, 0, 0), gray_frame(16, 8, 1, 1)];
    let plan = storage.save_video(&frames, "20250101_120000", "motion event").unwrap();
    assert_eq!(plan.frame_width, 16);
    assert_eq!(plan.frame_height, 8);
    assert_eq!(plan.file_name, "footage/video_20250101_120000_motion_event.avi");
}
