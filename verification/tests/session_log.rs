use devloop::config::default_rust_log;
use devloop::paths::{
    absolutize, components_of, file_name, is_absolute, join, normalize_path, parent, strip_prefix,
};
use devloop::process_guardian::{
    after_control_read, executable_directory, exit_code, read_error_length, read_process_group,
    read_start_message, start_error_payload, ControlRead, ControlStep, DirectoryError,
    StartMessage, MAX_START_ERROR_BYTES,
};
use devloop::session_log::{
    labeled_record, labeled_records, logs_directory_of, CreateOutcome, CreateStep, FlushStep,
    LogBatch, LogNames,
};
use std::path::Path;

#[test]
fn labels_each_persisted_output_line() {
    let records = labeled_records("echo server", b"first\r\nsecond\nthird");
    assert_eq!(
        String::from_utf8(records.concat()).expect("utf8"),
        "[echo server] first\n[echo server] second\n[echo server] third\n"
    );
    assert_eq!(labeled_record("é", b"\xff"), b"[\xc3\xa9] \xff\n");
}

#[test]
fn creates_a_unique_log_beside_session_state() {
    let directory = logs_directory_of("/w/.devloop/state.json").expect("directory");
    assert_eq!(directory, "/w/.devloop/logs");
    assert_eq!(logs_directory_of("/"), None);
    let mut names = LogNames::new(directory, 17, 4, 0);
    let first = names.next(None);
    assert_eq!(first, CreateStep::Try { path: "/w/.devloop/logs/session-17-4-0.log".into() });
    let second = names.next(Some(CreateOutcome::AlreadyExists));
    assert_eq!(second, CreateStep::Try { path: "/w/.devloop/logs/session-17-4-1.log".into() });
    assert_ne!(first, second);
    assert_eq!(names.next(Some(CreateOutcome::Created)), CreateStep::Done);
    assert_eq!(names.next(Some(CreateOutcome::Failed)), CreateStep::Fail);
}

#[test]
fn log_names_run_out() {
    let mut names = LogNames::new("logs".into(), u64::MAX, 0, u64::MAX);
    let mut tries = 0;
    while let CreateStep::Try { path } = names.next(Some(CreateOutcome::AlreadyExists)) {
        assert!(path.starts_with("logs/session-18446744073709551615-0-"));
        tries += 1;
    }
    assert_eq!(tries, 32);
    assert_eq!(names.next(Some(CreateOutcome::AlreadyExists)), CreateStep::GiveUp);
}

#[test]
fn flush_reports_prior_writer_failure() {
    let mut batch = LogBatch::new();
    assert_eq!(batch.flush(), FlushStep::Nothing);
    batch.queue(b"one".to_vec());
    batch.queue(b"two".to_vec());
    assert_eq!(batch.flush(), FlushStep::Write { bytes: b"onetwo".to_vec() });
    assert_eq!(batch.flush(), FlushStep::Nothing);
    batch.fail("simulated write failure".into());
    batch.queue(b"lost line".to_vec());
    let report = FlushStep::Report { error: "simulated write failure".into() };
    assert_eq!(batch.flush(), report);
    assert_eq!(batch.flush(), report);
}

#[test]
fn default_rust_log_uses_info_when_unset() {
    assert_eq!(default_rust_log(None), "info");
}

#[test]
fn default_rust_log_respects_environment_override() {
    assert_eq!(default_rust_log(Some("debug,devloop=trace".into())), "debug,devloop=trace");
}

#[test]
fn exit_code_preserves_success() {
    assert_eq!(exit_code(Some(0), None), 0);
    assert_eq!(exit_code(Some(3), Some(9)), 3);
    assert_eq!(exit_code(None, Some(9)), 137);
    assert_eq!(exit_code(None, Some(i32::MAX)), 255);
    assert_eq!(exit_code(None, None), 1);
    assert_eq!(exit_code(Some(-1), None), 0);
    assert_eq!(exit_code(Some(256), None), 255);
}

#[test]
fn start_messages_are_read() {
    assert_eq!(read_start_message(1), StartMessage::Started);
    assert_eq!(read_start_message(2), StartMessage::Failed);
    assert_eq!(read_start_message(7), StartMessage::Unknown(7));
    assert_eq!(read_process_group(0), None);
    assert_eq!(read_process_group(42), Some(42));
    assert_eq!(read_process_group(u32::MAX), None);
}

#[test]
fn start_errors_are_cut_to_what_is_taken() {
    let (length, bytes) = start_error_payload(b"no such file");
    assert_eq!((length, bytes.as_slice()), (12, b"no such file".as_slice()));
    let long = vec![b'x'; MAX_START_ERROR_BYTES + 5];
    let (length, bytes) = start_error_payload(&long);
    assert_eq!(bytes.len(), MAX_START_ERROR_BYTES);
    assert_eq!(read_error_length(length), Some(MAX_START_ERROR_BYTES));
    assert_eq!(read_error_length(length + 1), None);
}

#[test]
fn guardians_stand_beside_the_executable() {
    assert_eq!(executable_directory("/t/debug/devloop"), Ok("/t/debug".into()));
    assert_eq!(executable_directory("/t/debug/deps/devloop-1"), Ok("/t/debug".into()));
    assert_eq!(executable_directory("devloop"), Ok("".into()));
    assert_eq!(executable_directory("/"), Err(DirectoryError::NoParent));
    assert_eq!(executable_directory("deps/x"), Ok("".into()));
    assert_eq!(
        DirectoryError::NoProfile.message(),
        "Cargo test executable has no target profile directory"
    );
}

#[test]
fn guardians_kill_the_group_when_the_channel_ends() {
    assert_eq!(after_control_read(ControlRead::End), ControlStep::KillGroup { expected: true });
    assert_eq!(after_control_read(ControlRead::Failed), ControlStep::KillGroup { expected: true });
    assert_eq!(after_control_read(ControlRead::Data), ControlStep::KillGroup { expected: false });
    assert_eq!(after_control_read(ControlRead::Interrupted), ControlStep::ReadAgain);
}

#[test]
fn paths_behave_as_in_the_standard_library() {
    let paths = [
        "", ".", "..", "/", "//", "a", "a/", "./a", "a/./b", "/a//b/", "a/..", "/.", "/..", "a/b/c",
        "../x", ".hidden", "./", "a/.", "x/./", "/private/var", "é/漢",
    ];
    for a in paths {
        let path = Path::new(a);
        assert_eq!(is_absolute(a), path.is_absolute());
        let parts: Vec<String> = path
            .components()
            .map(|part| part.as_os_str().to_string_lossy().into_owned())
            .collect();
        assert_eq!(components_of(a), parts, "components of {a:?}");
        assert_eq!(normalize_path(a), parts.join("/"));
        assert_eq!(
            file_name(a),
            path.file_name().map(|name| name.to_string_lossy().into_owned()),
            "file name of {a:?}"
        );
        assert_eq!(
            parent(a).as_deref(),
            path.parent().and_then(|parent| parent.to_str()),
            "parent of {a:?}"
        );
        for b in paths {
            assert_eq!(join(a, b), path.join(b).to_string_lossy(), "join {a:?} {b:?}");
            assert_eq!(absolutize(a, b), path.join(b).to_string_lossy());
            assert_eq!(
                strip_prefix(a, b).as_deref(),
                path.strip_prefix(b).ok().and_then(|rest| rest.to_str()),
                "strip {b:?} from {a:?}"
            );
        }
    }
}

#[test]
fn queue_reports_prior_writer_failure() {
    let mut batch = LogBatch::new();
    batch.fail("simulated write failure".into());
    batch.queue(labeled_record("server", b"lost line"));
    match batch.flush() {
        FlushStep::Report { error } => assert!(error.contains("simulated write failure")),
        step => panic!("queue must fail, got {step:?}"),
    }
}
