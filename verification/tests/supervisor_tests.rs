use reframe_core::errors::RecError;
use reframe_core::listener::{classify_event, ForwardAction, InputEvent, ListenerFlag};
use reframe_core::options::RecordingOptions;
use reframe_core::paths::{format_timestamp, join_path, plan_start, resolve_root};
use reframe_core::supervisor::{
    shutdown_wait, stop_decision, PollOutcome, RecorderState, StopAction, Supervisor, POLL_LIMIT,
};

#[test]
fn start_while_active_fails_and_keeps_the_session() {
    let mut sup = Supervisor::new();
    assert_eq!(sup.ensure_idle(), Ok(()));
    sup.activate("a/screen.mp4".to_string());
    assert_eq!(sup.ensure_idle(), Err(RecError::AlreadyRecording));
    match &sup.state {
        RecorderState::Active { output_path } => assert_eq!(output_path, "a/screen.mp4"),
        RecorderState::Idle => panic!("session was lost"),
    }
}

#[test]
fn stop_while_idle_fails_with_not_recording() {
    let mut sup = Supervisor::new();
    assert_eq!(sup.take_stop(), Err(RecError::NotRecording));
    assert!(matches!(sup.state, RecorderState::Idle));
}

#[test]
fn start_then_stop_returns_to_idle_with_the_artifact_path() {
    let mut sup = Supervisor::new();
    assert_eq!(sup.ensure_idle(), Ok(()));
    sup.activate("root/Session_1/screen.mp4".to_string());
    let path = sup.take_stop().unwrap();
    assert_eq!(path, "root/Session_1/screen.mp4");
    assert!(matches!(sup.state, RecorderState::Idle));
    assert_eq!(sup.ensure_idle(), Ok(()));
}

#[test]
fn shutdown_wait_is_bounded_and_kills_a_deaf_encoder() {
    // An encoder stand-in that ignores the graceful signal: every poll
    // reports it still running.
    let polls = vec![PollOutcome::Running; 64];
    let report = shutdown_wait(&polls);
    assert!(report.killed);
    assert_eq!(report.polls_used, POLL_LIMIT);
    assert!(report.polls_used <= POLL_LIMIT);
}

#[test]
fn shutdown_wait_stops_as_soon_as_the_encoder_exits() {
    let mut polls = vec![PollOutcome::Running; 64];
    polls[3] = PollOutcome::Exited;
    let report = shutdown_wait(&polls);
    assert!(!report.killed);
    assert_eq!(report.polls_used, 4);
}

#[test]
fn shutdown_wait_gives_up_on_a_failing_poll() {
    let mut polls = vec![PollOutcome::Running; 64];
    polls[0] = PollOutcome::PollFailed;
    let report = shutdown_wait(&polls);
    assert!(!report.killed);
    assert_eq!(report.polls_used, 1);
}

#[test]
fn stop_decisions_follow_the_protocol() {
    assert_eq!(stop_decision(0, PollOutcome::Running), StopAction::Wait);
    assert_eq!(stop_decision(48, PollOutcome::Running), StopAction::Wait);
    assert_eq!(stop_decision(49, PollOutcome::Running), StopAction::WaitThenKill);
    assert_eq!(stop_decision(5, PollOutcome::Exited), StopAction::Finish);
    assert_eq!(stop_decision(5, PollOutcome::PollFailed), StopAction::Finish);
}

#[test]
fn listener_start_is_idempotent() {
    let mut flag = ListenerFlag::new();
    assert!(flag.try_start());
    assert!(!flag.try_start());
    assert!(!flag.try_start());
}

#[test]
fn listener_forwards_clicks_and_keys_only() {
    assert!(matches!(classify_event(InputEvent::PointerMoved), ForwardAction::TrackPointer));
    match classify_event(InputEvent::LeftPressed) {
        ForwardAction::EmitClick(b) => assert_eq!(b, "left"),
        _ => panic!("left press must forward a click"),
    }
    match classify_event(InputEvent::RightPressed) {
        ForwardAction::EmitClick(b) => assert_eq!(b, "right"),
        _ => panic!("right press must forward a click"),
    }
    match classify_event(InputEvent::KeyPressed("F9".to_string())) {
        ForwardAction::EmitKey(k) => assert_eq!(k, "F9"),
        _ => panic!("key press must forward the key"),
    }
    assert!(matches!(classify_event(InputEvent::Other), ForwardAction::Ignore));
}

#[test]
fn timestamps_are_zero_padded() {
    assert_eq!(format_timestamp(2026, 10, 12, 9, 5, 3), "2026-10-12_09-05-03");
    assert_eq!(format_timestamp(987, 1, 2, 23, 59, 0), "0987-01-02_23-59-00");
}

#[test]
fn root_resolution_prefers_the_explicit_path() {
    assert_eq!(resolve_root("D:\\clips", Some("V:\\vids".to_string()), '\\'), "D:\\clips");
    assert_eq!(
        resolve_root("", Some("V:\\vids".to_string()), '\\'),
        "V:\\vids\\Reframe"
    );
    assert_eq!(resolve_root("", None, '/'), "./Reframe");
}

#[test]
fn join_inserts_the_separator_only_when_needed() {
    assert_eq!(join_path("a", "b", '/'), "a/b");
    assert_eq!(join_path("a/", "b", '/'), "a/b");
    assert_eq!(join_path("", "b", '/'), "b");
}

#[test]
fn start_plan_lays_out_the_session() {
    let o = RecordingOptions {
        mic_enabled: false,
        mic_device: None,
        system_audio_enabled: false,
        save_path: "/tmp/rec".to_string(),
        capture_mode: None,
        window_title: None,
        region: None,
        mic_volume_tenths: 10,
        system_audio_volume_tenths: 10,
    };
    let plan = plan_start(&o, None, "2026-10-12_09-05-03", '/');
    assert_eq!(plan.session_dir, "/tmp/rec/Session_2026-10-12_09-05-03");
    assert_eq!(plan.output_path, "/tmp/rec/Session_2026-10-12_09-05-03/screen.mp4");
    assert_eq!(plan.args.last().unwrap(), &plan.output_path);
    assert_eq!(plan.args[0], "-y");
}

#[test]
fn error_labels_are_short_messages() {
    assert_eq!(RecError::AlreadyRecording.label(), "Already recording");
    assert_eq!(RecError::NotRecording.label(), "Not recording");
    assert_eq!(RecError::InvalidOptions.label(), "Invalid options");
    assert_eq!(RecError::EncoderLaunch.label(), "Failed to start encoder");
    assert_eq!(RecError::Filesystem.label(), "Filesystem error");
    assert_eq!(RecError::ToolInvocation.label(), "Failed to run helper tool");
}
