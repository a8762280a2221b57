//! Samsung Shannon modem device interface.
//!
//! The decisions behind talking to a Samsung Shannon modem through
//! `/dev/umts_dm0` (Diagnostic Monitor), found in Google Pixel 6+ devices: which
//! paths to try, how long to keep trying, and what to make of the bytes read.
//! The reading, writing and waiting itself is up to the caller.
//!
//! Device configuration from Samsung kernel device tree:
//! - Device: /dev/umts_dm0
//! - Channel ID: 28
//! - Format: IPC_RAW (1)
//! - IO Type: IODEV_MISC (0)
//! - Attrs: ATTR_SBD_IPC | ATTR_SIPC5 (0x82)
//! - Upload buffers: 16 x 2048 bytes
//! - Download buffers: 128 x 2048 bytes

use vstd::prelude::*;
use vstd::slice::slice_subrange;
use vstd::string::*;

use crate::shannon::{
    frames, parse_dm_buffer, DmMessagesContainer, ShannonParsingError, SipcRawHeader,
};

verus! {

/// The kinds of I/O failure that are told apart.
#[derive(Debug, Clone, Copy, PartialEq, Eq, Structural)]
pub enum IoFailureKind {
    NotFound,
    PermissionDenied,
    Other,
}

/// A failed I/O operation: its kind, and the system's words for it.
#[derive(Debug, Clone)]
pub struct IoFailure {
    pub kind: IoFailureKind,
    pub message: String,
}

/// What can go wrong with a device.
#[derive(Debug)]
pub enum ShannonDeviceError {
    InitializationFailed(String),
    DeviceReadFailed(IoFailure),
    DeviceWriteFailed(IoFailure),
    OpenDeviceError(IoFailure),
    ParseError(ShannonParsingError),
    UnsupportedDevice(String),
    PermissionDenied(String),
}

/// The result of an operation on a device.
pub type ShannonResult<T> = Result<T, ShannonDeviceError>;

/// Path to the Samsung Shannon Diagnostic Monitor device.
pub const SHANNON_DM_DEVICE: &'static str = "/dev/umts_dm0";

/// Alternative paths that might exist on some devices.
pub const SHANNON_DM_DEVICE_ALT: [&'static str; 3] = [
    "/dev/umts_dm0",
    "/dev/samsung_dm0",
    "/dev/modem_dm0",
];

/// Buffer size for reading from DM device.
/// Based on Samsung kernel config: 128 buffers x 2048 bytes.
pub const BUFFER_LEN: usize = 128 * 2048;

/// How long a device is waited for by default, in seconds.
pub const DEFAULT_TIMEOUT_SECS: u64 = 30;

/// The wait before the first retry, in milliseconds.
pub const FIRST_DELAY_MS: u64 = 100;

/// The longest wait before a retry, in milliseconds.
pub const MAX_DELAY_MS: u64 = 5000;

/// The wait after a read that gave nothing, in milliseconds.
pub const EMPTY_READ_DELAY_MS: u64 = 10;

/// The paths that are tried, in this order: the usual one, then every
/// alternative.
pub open spec fn candidates() -> Seq<Seq<char>> {
    seq![SHANNON_DM_DEVICE@] + SHANNON_DM_DEVICE_ALT@.map_values(|path: &'static str| path@)
}

/// The index of the first `true`, or the length if there is none.
pub open spec fn first_success(outcomes: Seq<bool>) -> nat
    decreases outcomes.len(),
{
    if outcomes.len() == 0 || outcomes[0] {
        0
    } else {
        1 + first_success(outcomes.drop_first())
    }
}

/// A search for a device over the candidate paths: each is tried in turn until
/// one succeeds, whatever the reason for which the ones before it failed.
#[derive(Debug, Clone, Copy, PartialEq, Eq, Structural)]
pub struct DeviceProbe {
    /// How many candidates have failed.
    pub failed: usize,
    /// Whether the candidate after those succeeded.
    pub found: bool,
}

impl DeviceProbe {
    /// The search is within the candidates.
    pub open spec fn wf(self) -> bool {
        &&& self.failed <= candidates().len()
        &&& self.found ==> self.failed < candidates().len()
    }

    /// The search goes on.
    pub open spec fn running(self) -> bool {
        !self.found && self.failed < candidates().len()
    }

    /// The state after one more candidate was tried.
    pub open spec fn after(self, success: bool) -> DeviceProbe {
        if success {
            DeviceProbe { found: true, ..self }
        } else {
            DeviceProbe { failed: (self.failed + 1) as usize, ..self }
        }
    }

    /// The state after trying, for as long as the search goes on, candidates
    /// with the given outcomes.
    pub open spec fn after_all(self, outcomes: Seq<bool>) -> DeviceProbe
        decreases outcomes.len(),
    {
        if outcomes.len() == 0 || !self.running() {
            self
        } else {
            self.after(outcomes[0]).after_all(outcomes.drop_first())
        }
    }

    /// A search that has tried nothing.
    pub fn new() -> (probe: Self)
        ensures
            probe == (DeviceProbe { failed: 0, found: false }),
            probe.wf(),
    {
        DeviceProbe { failed: 0, found: false }
    }

    /// The path of a candidate.
    fn candidate(index: usize) -> (path: &'static str)
        requires
            index < candidates().len(),
        ensures
            path@ == candidates()[index as int],
    {
        if index == 0 {
            SHANNON_DM_DEVICE
        } else {
            SHANNON_DM_DEVICE_ALT[index - 1]
        }
    }

    /// The path to try next, if the search goes on.
    pub fn next_path(&self) -> (path: Option<&'static str>)
        requires
            self.wf(),
        ensures
            path is Some <==> self.running(),
            path is Some ==> path->0@ == candidates()[self.failed as int],
    {
        if !self.found && self.failed < 1 + SHANNON_DM_DEVICE_ALT.len() {
            Some(DeviceProbe::candidate(self.failed))
        } else {
            None
        }
    }

    /// Note whether the path tried succeeded.
    pub fn report(&mut self, success: bool)
        requires
            old(self).wf(),
            old(self).running(),
        ensures
            *final(self) == old(self).after(success),
            final(self).wf(),
    {
        if success {
            self.found = true;
        } else {
            self.failed += 1;
        }
    }

    /// The path that succeeded.
    pub fn found_path(&self) -> (path: Option<&'static str>)
        requires
            self.wf(),
        ensures
            path is Some <==> self.found,
            path is Some ==> path->0@ == candidates()[self.failed as int],
    {
        if self.found {
            Some(DeviceProbe::candidate(self.failed))
        } else {
            None
        }
    }
}

/// What a search finds is the first candidate that succeeds, and where none
/// does it has tried them all.
pub proof fn law_first_candidate_wins(outcomes: Seq<bool>)
    requires
        outcomes.len() == candidates().len(),
    ensures
        ({
            let done = DeviceProbe { failed: 0, found: false }.after_all(outcomes);
            &&& done.failed == first_success(outcomes)
            &&& done.found <==> first_success(outcomes) < outcomes.len()
            &&& !done.running()
        }),
{
    lemma_probe(DeviceProbe { failed: 0, found: false }, outcomes);
}

proof fn lemma_probe(probe: DeviceProbe, outcomes: Seq<bool>)
    requires
        !probe.found,
        probe.failed + outcomes.len() == candidates().len(),
    ensures
        ({
            let done = probe.after_all(outcomes);
            &&& done.failed == probe.failed + first_success(outcomes)
            &&& done.found <==> first_success(outcomes) < outcomes.len()
            &&& !done.running()
        }),
    decreases outcomes.len(),
{
    if outcomes.len() > 0 {
        let next = probe.after(outcomes[0]);
        if outcomes[0] {
            assert(next.after_all(outcomes.drop_first()) == next);
        } else {
            lemma_probe(next, outcomes.drop_first());
        }
    }
}

/// The error where no candidate could be opened.
pub fn no_device_error() -> (error: ShannonDeviceError)
    ensures
        error matches ShannonDeviceError::InitializationFailed(text)
            && text@ == "No Samsung Shannon DM device found. Tried: /dev/umts_dm0 and alternatives."@,
{
    ShannonDeviceError::InitializationFailed(
        "No Samsung Shannon DM device found. Tried: /dev/umts_dm0 and alternatives.".to_owned(),
    )
}

/// The error where a path could not be opened.
pub fn open_error(device_path: &str, failure: IoFailure) -> (error: ShannonDeviceError)
    ensures
        match failure.kind {
            IoFailureKind::PermissionDenied => error matches ShannonDeviceError::PermissionDenied(
                path,
            ) && path@ == device_path@,
            _ => error == ShannonDeviceError::OpenDeviceError(failure),
        },
{
    match failure.kind {
        IoFailureKind::PermissionDenied => ShannonDeviceError::PermissionDenied(
            device_path.to_owned(),
        ),
        _ => ShannonDeviceError::OpenDeviceError(failure),
    }
}

/// What to do about a device that could not be initialized.
#[derive(Debug, Clone, Copy, PartialEq, Eq, Structural)]
pub enum RetryAction {
    /// Report the failure.
    GiveUp,
    /// Wait this many milliseconds and try again.
    RetryAfter(u64),
}

/// Retries with exponential backoff, for a limited time. Durations are in
/// nanoseconds, delays in milliseconds.
#[derive(Debug, Clone, Copy, PartialEq, Eq, Structural)]
pub struct RetryPlan {
    pub max_duration: u128,
    pub delay: u64,
}

impl RetryPlan {
    /// The delay is one that can be doubled.
    pub open spec fn wf(self) -> bool {
        self.delay <= MAX_DELAY_MS
    }

    /// The delay after this one: twice as long, up to the longest.
    pub open spec fn next_delay(delay: u64) -> u64 {
        if 2 * delay <= MAX_DELAY_MS {
            (2 * delay) as u64
        } else {
            MAX_DELAY_MS
        }
    }

    /// The delay that follows `retries` retries.
    pub open spec fn delay_after(retries: nat) -> u64
        decreases retries,
    {
        if retries == 0 {
            FIRST_DELAY_MS
        } else {
            RetryPlan::next_delay(RetryPlan::delay_after((retries - 1) as nat))
        }
    }

    /// What to do about a failure `elapsed` after the first attempt began.
    pub open spec fn action(self, elapsed: u128) -> RetryAction {
        if elapsed >= self.max_duration {
            RetryAction::GiveUp
        } else {
            RetryAction::RetryAfter(self.delay)
        }
    }

    /// The plan after that.
    pub open spec fn after(self, elapsed: u128) -> RetryPlan {
        if elapsed >= self.max_duration {
            self
        } else {
            RetryPlan { delay: RetryPlan::next_delay(self.delay), ..self }
        }
    }

    /// The plan after failures that came in time, each `elapsed[i]` after the
    /// first attempt began.
    pub open spec fn after_all(self, elapsed: Seq<u128>) -> RetryPlan
        decreases elapsed.len(),
    {
        if elapsed.len() == 0 {
            self
        } else {
            self.after_all(elapsed.drop_last()).after(elapsed.last())
        }
    }

    /// Keep trying until `max_duration` has passed.
    pub fn new(max_duration: u128) -> (plan: Self)
        ensures
            plan == (RetryPlan { max_duration, delay: RetryPlan::delay_after(0) }),
            plan.wf(),
    {
        RetryPlan { max_duration, delay: FIRST_DELAY_MS }
    }

    /// The device could not be initialized, `elapsed` after the first attempt
    /// began.
    pub fn after_failure(&mut self, elapsed: u128) -> (action: RetryAction)
        requires
            old(self).wf(),
        ensures
            final(self).wf(),
            action == old(self).action(elapsed),
            *final(self) == old(self).after(elapsed),
            elapsed >= old(self).max_duration ==> action == RetryAction::GiveUp && *final(self)
                == *old(self),
            elapsed < old(self).max_duration ==> {
                &&& action == RetryAction::RetryAfter(old(self).delay)
                &&& *final(self) == (RetryPlan {
                    delay: RetryPlan::next_delay(old(self).delay),
                    ..*old(self)
                })
            },
    {
        if elapsed >= self.max_duration {
            return RetryAction::GiveUp;
        }
        let delay: u64 = self.delay;
        // Exponential backoff
        self.delay = if delay * 2 <= MAX_DELAY_MS {
            delay * 2
        } else {
            MAX_DELAY_MS
        };
        RetryAction::RetryAfter(delay)
    }
}

/// The delays double from 100 milliseconds on, up to 5 seconds, and never shrink.
pub proof fn law_exponential_backoff(retries: nat)
    ensures
        retries < 6 ==> RetryPlan::delay_after(retries) == 100
            * vstd::arithmetic::power2::pow2(retries),
        retries >= 6 ==> RetryPlan::delay_after(retries) == 5000,
        RetryPlan::delay_after(retries) <= RetryPlan::delay_after(retries + 1) <= 5000,
    decreases retries,
{
    reveal_with_fuel(RetryPlan::delay_after, 8);
    vstd::arithmetic::power2::lemma2_to64();
    if retries > 6 {
        law_exponential_backoff((retries - 1) as nat);
    }
}

/// A plan is given up at the first failure that comes no sooner than the limit,
/// and never before it; until then the first wait is 100 milliseconds, and each
/// further one twice as long as the last, but never over 5 seconds.
pub proof fn law_retries(max_duration: u128, elapsed: Seq<u128>, now: u128)
    requires
        forall|i: int| 0 <= i < elapsed.len() ==> #[trigger] elapsed[i] < max_duration,
    ensures
        ({
            let start = RetryPlan { max_duration, delay: 100 };
            let plan = start.after_all(elapsed);
            &&& plan.max_duration == max_duration
            &&& now >= max_duration ==> plan.action(now) == RetryAction::GiveUp
            &&& now < max_duration ==> plan.action(now) is RetryAfter
            &&& now < max_duration && elapsed.len() < 6 ==> plan.action(now)
                == RetryAction::RetryAfter(
                (100 * vstd::arithmetic::power2::pow2(elapsed.len())) as u64,
            )
            &&& now < max_duration && elapsed.len() >= 6 ==> plan.action(now)
                == RetryAction::RetryAfter(5000)
        }),
{
    lemma_plan_after(max_duration, elapsed);
    law_exponential_backoff(elapsed.len());
    vstd::arithmetic::power2::lemma2_to64();
}

proof fn lemma_plan_after(max_duration: u128, elapsed: Seq<u128>)
    requires
        forall|i: int| 0 <= i < elapsed.len() ==> #[trigger] elapsed[i] < max_duration,
    ensures
        (RetryPlan { max_duration, delay: 100 }).after_all(elapsed) == (RetryPlan {
            max_duration,
            delay: RetryPlan::delay_after(elapsed.len()),
        }),
    decreases elapsed.len(),
{
    if elapsed.len() > 0 {
        let before = elapsed.drop_last();
        assert forall|i: int| 0 <= i < before.len() implies #[trigger] before[i] < max_duration by {
            assert(before[i] == elapsed[i]);
        }
        assert(elapsed.last() < max_duration);
        lemma_plan_after(max_duration, before);
    }
}

/// The numbers of the interface: the paths and their order, 128 buffers of 2048
/// bytes, half a minute to wait for a device.
pub proof fn law_interface_constants()
    ensures
        candidates().len() == 4,
        candidates()[0] == "/dev/umts_dm0"@,
        candidates()[1] == "/dev/umts_dm0"@,
        candidates()[2] == "/dev/samsung_dm0"@,
        candidates()[3] == "/dev/modem_dm0"@,
        SHANNON_DM_DEVICE@ == "/dev/umts_dm0"@,
        BUFFER_LEN == 128 * 2048,
        DEFAULT_TIMEOUT_SECS == 30,
{
}

/// What to do after a read from the device.
#[derive(Debug, Clone, Copy, PartialEq, Eq, Structural)]
pub enum ReadAction {
    /// No data available: wait this many milliseconds to avoid a busy loop,
    /// and read again.
    WaitAndReadAgain(u64),
    /// Too little to hold a header: read again.
    ReadAgain,
    /// Parse what was read.
    Parse,
}

/// What to do after a read that gave `bytes_read` bytes.
pub open spec fn read_action(bytes_read: nat) -> ReadAction {
    if bytes_read == 0 {
        ReadAction::WaitAndReadAgain(EMPTY_READ_DELAY_MS)
    } else if bytes_read < 4 {
        ReadAction::ReadAgain
    } else {
        ReadAction::Parse
    }
}

/// Exactly the reads with room for a raw header, which takes four bytes, are
/// parsed; and only after one that gave nothing there is a wait, of 10
/// milliseconds.
pub proof fn law_parse_from_a_header_on(header: SipcRawHeader, rest: Seq<u8>, bytes_read: nat)
    ensures
        read_action((header.encoded() + rest).len()) is Parse,
        bytes_read < header.encoded().len() ==> read_action(bytes_read) !is Parse,
        read_action(bytes_read) == ReadAction::WaitAndReadAgain(10) <==> bytes_read == 0,
        read_action(bytes_read) is WaitAndReadAgain ==> bytes_read == 0,
{
    header.law_layout(rest);
}

/// What to do after a read that gave `bytes_read` bytes.
pub fn after_read(bytes_read: usize) -> (action: ReadAction)
    ensures
        action == read_action(bytes_read as nat),
        bytes_read == 0 ==> action == ReadAction::WaitAndReadAgain(EMPTY_READ_DELAY_MS),
        0 < bytes_read < 4 ==> action == ReadAction::ReadAgain,
        4 <= bytes_read ==> action == ReadAction::Parse,
{
    if bytes_read == 0 {
        ReadAction::WaitAndReadAgain(EMPTY_READ_DELAY_MS)
    } else if bytes_read < 4 {
        ReadAction::ReadAgain
    } else {
        ReadAction::Parse
    }
}

/// Samsung Shannon modem diagnostic interface: an open device, and the buffer
/// that is read into.
#[derive(Debug)]
pub struct ShannonDevice {
    pub device_path: String,
    pub read_buf: Vec<u8>,
}

impl ShannonDevice {
    /// The device at a path that was opened, with an empty buffer.
    pub fn opened(device_path: &str) -> (device: Self)
        ensures
            device.device_path@ == device_path@,
            device.read_buf@ == Seq::new(BUFFER_LEN as nat, |i: int| 0u8),
    {
        let device = ShannonDevice {
            device_path: device_path.to_owned(),
            read_buf: vec![0u8; BUFFER_LEN],
        };
        assert(device.read_buf@ =~= Seq::new(BUFFER_LEN as nat, |i: int| 0u8));
        device
    }

    /// Get the device path being used.
    pub fn device_path(&self) -> (path: &str)
        ensures
            path@ == self.device_path@,
    {
        self.device_path.as_str()
    }

    /// The messages in the first `bytes_read` bytes of the buffer.
    pub fn messages_read(&self, bytes_read: usize) -> (result: ShannonResult<DmMessagesContainer>)
        requires
            bytes_read <= self.read_buf@.len(),
        ensures
            match frames(self.read_buf@.take(bytes_read as int)) {
                Ok(messages) => result is Ok && result->Ok_0@ == messages,
                Err(need) => result == Err::<DmMessagesContainer, _>(
                    ShannonDeviceError::ParseError(
                        ShannonParsingError::BufferTooSmall {
                            need: (if need <= usize::MAX { need as usize } else { usize::MAX }),
                            got: bytes_read,
                        },
                    ),
                ),
            },
    {
        let bytes = slice_subrange(self.read_buf.as_slice(), 0, bytes_read);
        assert(bytes@ =~= self.read_buf@.take(bytes_read as int));
        match parse_dm_buffer(bytes) {
            Ok(messages) => Ok(DmMessagesContainer { messages }),
            Err(error) => Err(ShannonDeviceError::ParseError(error)),
        }
    }
}

/// Information about an available Shannon device.
pub fn device_info(device_path: &str, permissions: &str) -> (info: String)
    ensures
        info@ == "Shannon DM device at "@ + device_path@ + " (permissions: "@ + permissions@ + ")"@,
{
    let mut info = "Shannon DM device at ".to_owned();
    info.append(device_path);
    info.append(" (permissions: ");
    info.append(permissions);
    info.append(")");
    info
}

} // verus!
