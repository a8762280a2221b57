use rayhunter::shannon::ShannonParsingError;
use rayhunter::shannon_device::{
    after_read, device_info, no_device_error, open_error, DeviceProbe, IoFailure, IoFailureKind,
    ReadAction, RetryAction, RetryPlan, ShannonDevice, ShannonDeviceError, BUFFER_LEN,
    DEFAULT_TIMEOUT_SECS, SHANNON_DM_DEVICE, SHANNON_DM_DEVICE_ALT,
};

#[test]
fn test_device_path_constant() {
    assert_eq!(SHANNON_DM_DEVICE, "/dev/umts_dm0");
}

#[test]
fn test_buffer_size() {
    // 128 * 2048 = 262144
    assert_eq!(BUFFER_LEN, 262144);
}

#[test]
fn candidates_are_tried_in_order() {
    let mut probe = DeviceProbe::new();
    let mut tried = Vec::new();
    while let Some(path) = probe.next_path() {
        tried.push(path);
        probe.report(false);
    }
    assert_eq!(
        tried,
        vec!["/dev/umts_dm0", "/dev/umts_dm0", "/dev/samsung_dm0", "/dev/modem_dm0"]
    );
    assert_eq!(&tried[1..], &SHANNON_DM_DEVICE_ALT[..]);
    assert_eq!(probe.found_path(), None);
}

#[test]
fn the_first_candidate_that_opens_is_taken() {
    let mut probe = DeviceProbe::new();
    assert_eq!(probe.found_path(), None);
    probe.report(false);
    probe.report(false);
    probe.report(true);
    assert_eq!(probe.next_path(), None);
    assert_eq!(probe.found_path(), Some("/dev/samsung_dm0"));
}

#[test]
fn failures_to_open() {
    let failure = |kind| IoFailure { kind, message: "no".to_string() };
    match open_error("/dev/x", failure(IoFailureKind::PermissionDenied)) {
        ShannonDeviceError::PermissionDenied(path) => assert_eq!(path, "/dev/x"),
        other => panic!("{other:?}"),
    }
    for kind in [IoFailureKind::NotFound, IoFailureKind::Other] {
        match open_error("/dev/x", failure(kind)) {
            ShannonDeviceError::OpenDeviceError(failure) => {
                assert_eq!(failure.kind, kind);
                assert_eq!(failure.message, "no");
            }
            other => panic!("{other:?}"),
        }
    }
    match no_device_error() {
        ShannonDeviceError::InitializationFailed(text) => assert_eq!(
            text,
            "No Samsung Shannon DM device found. Tried: /dev/umts_dm0 and alternatives."
        ),
        other => panic!("{other:?}"),
    }
}

#[test]
fn delays_double_up_to_the_longest() {
    let mut plan = RetryPlan::new(DEFAULT_TIMEOUT_SECS as u128 * 1_000_000_000);
    let mut delays = Vec::new();
    for _ in 0..8 {
        match plan.after_failure(0) {
            RetryAction::RetryAfter(delay) => delays.push(delay),
            RetryAction::GiveUp => panic!("gave up early"),
        }
    }
    assert_eq!(delays, vec![100, 200, 400, 800, 1600, 3200, 5000, 5000]);
}

#[test]
fn the_time_limit_ends_the_retries() {
    let mut plan = RetryPlan::new(30_000_000_000);
    assert_eq!(plan.after_failure(29_999_999_999), RetryAction::RetryAfter(100));
    assert_eq!(plan.after_failure(30_000_000_000), RetryAction::GiveUp);
    assert_eq!(plan.after_failure(30_000_000_001), RetryAction::GiveUp);
    assert_eq!(plan.delay, 200);
    assert_eq!(RetryPlan::new(0).after_failure(0), RetryAction::GiveUp);
}

#[test]
fn reads_go_on_until_there_is_a_header() {
    assert_eq!(after_read(0), ReadAction::WaitAndReadAgain(10));
    assert_eq!(after_read(1), ReadAction::ReadAgain);
    assert_eq!(after_read(3), ReadAction::ReadAgain);
    assert_eq!(after_read(4), ReadAction::Parse);
    assert_eq!(after_read(BUFFER_LEN), ReadAction::Parse);
}

#[test]
fn what_was_read_becomes_messages() {
    let mut device = ShannonDevice::opened("/dev/modem_dm0");
    assert_eq!(device.device_path(), "/dev/modem_dm0");
    assert_eq!(device.read_buf.len(), BUFFER_LEN);
    assert!(device.read_buf.iter().all(|byte| *byte == 0));
    device.read_buf[0..9].copy_from_slice(&[28, 0, 1, 0, 0xAA, 28, 0, 9, 0]);
    let container = device.messages_read(5).unwrap();
    assert_eq!(container.messages.len(), 1);
    assert_eq!(container.messages[0].payload, vec![0xAA]);
    match device.messages_read(9) {
        Err(ShannonDeviceError::ParseError(error)) => {
            assert_eq!(error, ShannonParsingError::BufferTooSmall { need: 18, got: 9 })
        }
        other => panic!("{other:?}"),
    }
}

#[test]
fn device_info_in_words() {
    assert_eq!(
        device_info("/dev/umts_dm0", "rw"),
        "Shannon DM device at /dev/umts_dm0 (permissions: rw)"
    );
}
