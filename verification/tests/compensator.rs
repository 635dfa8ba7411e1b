use wanna_cdn::cdn::ChecksumError;
use wanna_cdn::wanna::audio_compensator::{
    compute_compensated_file_path, delivery_file, queue_song_id, AudioCompensatorServiceImpl,
    CompensatorTask, Submission,
};
use wanna_cdn::wanna::log_watcher::is_log_file;

fn task(id: u32, md5: Option<&str>, offset: &str) -> CompensatorTask {
    CompensatorTask {
        song_id: id,
        song_md5: md5.map(|s| s.to_string()),
        input_video_path: format!("./song/{}/video.mp4", id),
        audio_offset: offset.to_string(),
    }
}

#[test]
fn derivative_paths() {
    let (done, stage) = compute_compensated_file_path(
        &"./cache".to_string(),
        42,
        &"0.05".to_string(),
        Some("abc".to_string()),
        Ok("zzz".to_string()),
    );
    assert_eq!(done, "./cache/42-abc-audio-offset-0.05.mp4");
    assert_eq!(stage, "./cache/42-abc-audio-offset-0.05-nocopy.mp4");
    let (indexed, _) = compute_compensated_file_path(
        &"./cache".to_string(),
        42,
        &"0.05".to_string(),
        None,
        Ok("zzz".to_string()),
    );
    assert_eq!(indexed, "./cache/42-zzz-audio-offset-0.05.mp4");
    let (blank, _) = compute_compensated_file_path(
        &"./cache".to_string(),
        42,
        &"0.05".to_string(),
        None,
        Err(ChecksumError::NotFound),
    );
    assert_eq!(blank, "./cache/42--audio-offset-0.05.mp4");
}

#[test]
fn same_task_compares_all_four_parts() {
    let t = task(1, Some("a"), "0.05");
    assert!(t.same_task(&task(1, Some("a"), "0.05")));
    assert!(!t.same_task(&task(2, Some("a"), "0.05")));
    assert!(!t.same_task(&task(1, Some("b"), "0.05")));
    assert!(!t.same_task(&task(1, None, "0.05")));
    assert!(!t.same_task(&task(1, Some("a"), "0.06")));
    let mut moved = task(1, Some("a"), "0.05");
    moved.input_video_path = "./override/1.mp4".to_string();
    assert!(!t.same_task(&moved));
}

#[test]
fn a_running_task_is_not_started_again() {
    let mut service = AudioCompensatorServiceImpl::new();
    let t = task(1, Some("a"), "0.05");
    assert_eq!(service.submit_new_compensator_task(&t, true), Submission::Ready);
    assert!(!service.running(&t));
    assert_eq!(service.submit_new_compensator_task(&t, false), Submission::Started);
    assert!(service.running(&t));
    assert_eq!(service.submit_new_compensator_task(&t, false), Submission::AlreadyRunning);
    assert_eq!(service.submit_new_compensator_task(&task(2, Some("a"), "0.05"), false), Submission::Started);
    service.finish(&t);
    assert!(!service.running(&t));
    assert!(service.running(&task(2, Some("a"), "0.05")));
    assert_eq!(service.submit_new_compensator_task(&t, false), Submission::Started);
}

#[test]
fn queue_ids_and_fallback() {
    assert_eq!(queue_song_id(-1), None);
    assert_eq!(queue_song_id(0), None);
    assert_eq!(queue_song_id(222), Some(222));
    assert_eq!(delivery_file("orig".to_string(), Some("comp".to_string())), "comp");
    assert_eq!(delivery_file("orig".to_string(), None), "orig");
}

#[test]
fn log_file_names() {
    assert!(is_log_file("output_log_2024-03-01_12-00-00.txt"));
    assert!(is_log_file("output_log.TXT"));
    assert!(!is_log_file("output_log_2024.log"));
    assert!(!is_log_file("output_log"));
    assert!(!is_log_file("Player.txt"));
    assert!(!is_log_file("output_log.txt.bak"));
}
