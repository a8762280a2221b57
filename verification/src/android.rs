//! Android installer for rooted devices with Samsung Shannon modems: what to
//! run on the device, in which order, and what to make of the answers. Talking
//! to the device is up to the caller.
//!
//! Supported:
//! - Google Pixel 6/7/8/9 with Samsung Exynos/Shannon modems
//! - GrapheneOS, LineageOS, or other custom ROMs with root access
//!
//! Prerequisites:
//! - Device must be rooted (Magisk, KernelSU, or similar)
//! - ADB debugging must be enabled
//! - Device must be connected via USB

use vstd::prelude::*;
use vstd::slice::slice_to_vec;
use vstd::string::*;
use vstd::utf8::encode_utf8;

use crate::digest::{hex, md5_digest, md5_hex};
use crate::text::{
    blank, contains, debug_text, file_name, file_name_in, is_blank, law_contains, law_file_name_of_child,
    law_replace_first, law_replace_nothing,
    lossy_text, lossy_utf8, optional_text, plain_path, quoted, replace, replaced, text_contains,
    text_views,
};

verus! {

/// Google Pixel USB Vendor ID.
pub const GOOGLE_USB_VENDOR_ID: u16 = 0x18D1;

/// Pixel in ADB mode Product IDs: ADB, ADB + MTP, ADB + PTP, fastboot.
pub const PIXEL_ADB_PRODUCT_IDS: [u16; 4] = [0x4EE7, 0x4EE2, 0x4EE5, 0xD001];

/// Default data directory on Android.
pub const RAYHUNTER_DATA_DIR: &'static str = "/data/local/tmp/rayhunter";

/// Service script location.
pub const RAYHUNTER_SERVICE_SCRIPT: &'static str =
    "/data/local/tmp/rayhunter/start-rayhunter.sh";

/// How long the daemon is given to start, in seconds.
pub const STARTUP_SECS: u64 = 3;

/// The startup script, up to the data directory.
pub const SCRIPT_HEAD: &'static str = r#"#!/system/bin/sh
# Rayhunter startup script for Android (Pixel 6+)
# This script must be run as root

RAYHUNTER_DIR=""#;

/// The part of the startup script that names the files of the data directory.
pub const SCRIPT_FILES: &'static str = r#""
DAEMON="$RAYHUNTER_DIR/rayhunter-daemon"
CONFIG="$RAYHUNTER_DIR/config.toml"
LOG="$RAYHUNTER_DIR/rayhunter.log"
PID_FILE="$RAYHUNTER_DIR/rayhunter.pid"

"#;

/// The part of the startup script that leaves alone a daemon that runs.
pub const SCRIPT_IF_RUNNING: &'static str = r#"# Check if already running
if [ -f "$PID_FILE" ]; then
    PID=$(cat "$PID_FILE")
    if kill -0 "$PID" 2>/dev/null; then
        echo "Rayhunter is already running (PID: $PID)"
        exit 0
    fi
fi

"#;

/// The part of the startup script that makes the store.
pub const SCRIPT_STORE: &'static str = r#"# Create QMDL storage directory
mkdir -p "$RAYHUNTER_DIR/qmdl"

"#;

/// The part of the startup script that sets up the environment.
pub const SCRIPT_ENVIRONMENT: &'static str = r#"# Set up networking groups (Android paranoid networking)
# GIDs: 3003=inet, 3004=net_raw
export LD_LIBRARY_PATH=/system/lib64:/vendor/lib64

"#;

/// The part of the startup script that starts the daemon and notes its process.
pub const SCRIPT_START: &'static str = r#"# Start the daemon
echo "Starting rayhunter-daemon..."
cd "$RAYHUNTER_DIR"
nohup "$DAEMON" --config "$CONFIG" > "$LOG" 2>&1 &
echo $! > "$PID_FILE"

"#;

/// The part of the startup script that says that it has.
pub const SCRIPT_SAY: &'static str = r#"echo "Rayhunter started (PID: $(cat $PID_FILE))"
echo "Log file: $LOG"
echo "Web interface: http://localhost:8080"
"#;

/// What to install on.
#[derive(Debug)]
pub struct AndroidArgs {
    /// Use specific USB product ID (defaults to auto-detect).
    pub product_id: Option<u16>,
}

impl Default for AndroidArgs {
    fn default() -> (args: Self)
        ensures
            args.product_id is None,
    {
        AndroidArgs { product_id: None }
    }
}

/// The USB product IDs under which a device is looked for, in this order: the
/// one asked for, then the known ones.
pub open spec fn product_ids(product_id: Option<u16>) -> Seq<u16> {
    match product_id {
        Some(id) => seq![id] + PIXEL_ADB_PRODUCT_IDS@,
        None => PIXEL_ADB_PRODUCT_IDS@,
    }
}

/// The USB product IDs under which a device is looked for, in this order.
pub fn product_id_candidates(product_id: Option<u16>) -> (ids: Vec<u16>)
    ensures
        ids@ == product_ids(product_id),
{
    let mut ids: Vec<u16> = Vec::new();
    // Try specified product ID first
    if let Some(id) = product_id {
        ids.push(id);
    }
    let ghost asked = ids@;
    let mut i: usize = 0;
    while i < PIXEL_ADB_PRODUCT_IDS.len()
        invariant
            i <= PIXEL_ADB_PRODUCT_IDS@.len(),
            ids@ == asked + PIXEL_ADB_PRODUCT_IDS@.take(i as int),
        decreases PIXEL_ADB_PRODUCT_IDS@.len() - i,
    {
        ids.push(PIXEL_ADB_PRODUCT_IDS[i]);
        i += 1;
        assert(ids@ =~= asked + PIXEL_ADB_PRODUCT_IDS@.take(i as int));
    }
    assert(ids@ =~= product_ids(product_id));
    ids
}

/// The first piece of text followed by the second.
fn joined(first: &str, second: &str) -> (text: String)
    ensures
        text@ == first@ + second@,
{
    let mut text = first.to_owned();
    text.append(second);
    text
}

/// The startup script for rayhunter.
pub open spec fn startup_script() -> Seq<char> {
    SCRIPT_HEAD@ + RAYHUNTER_DATA_DIR@ + SCRIPT_FILES@ + SCRIPT_IF_RUNNING@ + SCRIPT_STORE@
        + SCRIPT_ENVIRONMENT@ + SCRIPT_START@ + SCRIPT_SAY@
}

/// Generate the startup script for rayhunter.
pub fn generate_startup_script() -> (script: String)
    ensures
        script@ == startup_script(),
{
    let mut script = joined(SCRIPT_HEAD, RAYHUNTER_DATA_DIR);
    script.append(SCRIPT_FILES);
    script.append(SCRIPT_IF_RUNNING);
    script.append(SCRIPT_STORE);
    script.append(SCRIPT_ENVIRONMENT);
    script.append(SCRIPT_START);
    script.append(SCRIPT_SAY);
    script
}

/// What the startup script does: it names the data directory and the files in
/// it, leaves alone a daemon that runs, makes the store, starts the daemon in
/// the background with its configuration and its log, notes its process, and
/// says that it has been started.
pub proof fn law_startup_script()
    ensures
        (SCRIPT_HEAD@ + "/data/local/tmp/rayhunter"@).is_prefix_of(startup_script()),
        SCRIPT_HEAD@ == r#"#!/system/bin/sh
# Rayhunter startup script for Android (Pixel 6+)
# This script must be run as root

RAYHUNTER_DIR=""#@,
        contains(
            startup_script(),
            r#""
DAEMON="$RAYHUNTER_DIR/rayhunter-daemon"
CONFIG="$RAYHUNTER_DIR/config.toml"
LOG="$RAYHUNTER_DIR/rayhunter.log"
PID_FILE="$RAYHUNTER_DIR/rayhunter.pid"

"#@,
        ),
        contains(
            startup_script(),
            r#"# Check if already running
if [ -f "$PID_FILE" ]; then
    PID=$(cat "$PID_FILE")
    if kill -0 "$PID" 2>/dev/null; then
        echo "Rayhunter is already running (PID: $PID)"
        exit 0
    fi
fi

"#@,
        ),
        contains(
            startup_script(),
            r#"# Create QMDL storage directory
mkdir -p "$RAYHUNTER_DIR/qmdl"

"#@,
        ),
        contains(
            startup_script(),
            r#"# Set up networking groups (Android paranoid networking)
# GIDs: 3003=inet, 3004=net_raw
export LD_LIBRARY_PATH=/system/lib64:/vendor/lib64

"#@,
        ),
        contains(
            startup_script(),
            r#"# Start the daemon
echo "Starting rayhunter-daemon..."
cd "$RAYHUNTER_DIR"
nohup "$DAEMON" --config "$CONFIG" > "$LOG" 2>&1 &
echo $! > "$PID_FILE"

"#@,
        ),
        contains(
            startup_script(),
            r#"echo "Rayhunter started (PID: $(cat $PID_FILE))"
echo "Log file: $LOG"
echo "Web interface: http://localhost:8080"
"#@,
        ),
{
    lemma_part(
        SCRIPT_HEAD@ + RAYHUNTER_DATA_DIR@,
        SCRIPT_FILES@,
        SCRIPT_IF_RUNNING@ + SCRIPT_STORE@ + SCRIPT_ENVIRONMENT@ + SCRIPT_START@ + SCRIPT_SAY@,
    );
    lemma_part(
        SCRIPT_HEAD@ + RAYHUNTER_DATA_DIR@ + SCRIPT_FILES@,
        SCRIPT_IF_RUNNING@,
        SCRIPT_STORE@ + SCRIPT_ENVIRONMENT@ + SCRIPT_START@ + SCRIPT_SAY@,
    );
    lemma_part(
        SCRIPT_HEAD@ + RAYHUNTER_DATA_DIR@ + SCRIPT_FILES@ + SCRIPT_IF_RUNNING@,
        SCRIPT_STORE@,
        SCRIPT_ENVIRONMENT@ + SCRIPT_START@ + SCRIPT_SAY@,
    );
    lemma_part(
        SCRIPT_HEAD@ + RAYHUNTER_DATA_DIR@ + SCRIPT_FILES@ + SCRIPT_IF_RUNNING@ + SCRIPT_STORE@,
        SCRIPT_ENVIRONMENT@,
        SCRIPT_START@ + SCRIPT_SAY@,
    );
    lemma_part(
        SCRIPT_HEAD@ + RAYHUNTER_DATA_DIR@ + SCRIPT_FILES@ + SCRIPT_IF_RUNNING@ + SCRIPT_STORE@ + SCRIPT_ENVIRONMENT@,
        SCRIPT_START@,
        SCRIPT_SAY@,
    );
    lemma_part(
        SCRIPT_HEAD@ + RAYHUNTER_DATA_DIR@ + SCRIPT_FILES@ + SCRIPT_IF_RUNNING@ + SCRIPT_STORE@ + SCRIPT_ENVIRONMENT@ + SCRIPT_START@,
        SCRIPT_SAY@,
        Seq::<char>::empty(),
    );
    let start = SCRIPT_HEAD@ + RAYHUNTER_DATA_DIR@;
    assert(startup_script().take(start.len() as int) =~= start);
}

proof fn lemma_part(before: Seq<char>, part: Seq<char>, after: Seq<char>)
    requires
        startup_script() =~= before + part + after,
    ensures
        contains(startup_script(), part),
{
    law_contains(before, part, after, part);
}

/// The configuration for an Android device: the usual one, with the device set
/// and with the store in the data directory.
pub open spec fn android_config(config_toml: Seq<char>) -> Seq<char> {
    replaced(
        replaced(config_toml, "#device = \"orbic\""@, "device = \"pixel9\""@),
        "qmdl_store_path = \"/data/rayhunter/qmdl\""@,
        "qmdl_store_path = \""@ + RAYHUNTER_DATA_DIR@ + "/qmdl\""@,
    )
}

/// Rewrite the usual configuration for an Android device.
pub fn generate_config(config_toml: &str) -> (config: String)
    ensures
        config@ == android_config(config_toml@),
{
    proof {
        reveal_strlit("#device = \"orbic\"");
        reveal_strlit("qmdl_store_path = \"/data/rayhunter/qmdl\"");
    }
    let with_device = replace(config_toml, "#device = \"orbic\"", "device = \"pixel9\"");
    let mut store = joined("qmdl_store_path = \"", RAYHUNTER_DATA_DIR);
    store.append("/qmdl\"");
    replace(
        with_device.as_str(),
        "qmdl_store_path = \"/data/rayhunter/qmdl\"",
        store.as_str(),
    )
}

/// Why an installation was given up.
#[derive(Debug)]
pub enum InstallError {
    /// No device under any of the product IDs.
    NoDevice,
    /// No root access; what `id` said.
    NoRoot(String),
    /// No Shannon modem.
    NoModem,
    /// A command did not say what it should have; what it said.
    OutputMissing { expected: String, output: String },
    /// A destination without a file name.
    NoFileName(String),
    /// A file did not arrive as it was sent.
    HashMismatch,
    /// The daemon is not running; the end of its log.
    NotRunning(String),
}

/// What an [`InstallError`] holds, as a mathematical value.
#[verifier::ext_equal]
pub enum InstallErrorView {
    NoDevice,
    NoRoot(Seq<char>),
    NoModem,
    OutputMissing { expected: Seq<char>, output: Seq<char> },
    NoFileName(Seq<char>),
    HashMismatch,
    NotRunning(Seq<char>),
}

impl View for InstallError {
    type V = InstallErrorView;

    open spec fn view(&self) -> InstallErrorView {
        match self {
            InstallError::NoDevice => InstallErrorView::NoDevice,
            InstallError::NoRoot(output) => InstallErrorView::NoRoot(output@),
            InstallError::NoModem => InstallErrorView::NoModem,
            InstallError::OutputMissing { expected, output } => InstallErrorView::OutputMissing {
                expected: expected@,
                output: output@,
            },
            InstallError::NoFileName(dest) => InstallErrorView::NoFileName(dest@),
            InstallError::HashMismatch => InstallErrorView::HashMismatch,
            InstallError::NotRunning(log) => InstallErrorView::NotRunning(log@),
        }
    }
}

impl InstallErrorView {
    /// The error in words.
    pub open spec fn message(self) -> Seq<char> {
        match self {
            InstallErrorView::NoDevice => NO_DEVICE@,
            InstallErrorView::NoRoot(output) => NO_ROOT@ + output,
            InstallErrorView::NoModem => NO_MODEM@,
            InstallErrorView::OutputMissing { expected, output } => debug_text(expected)
                + " not found in: "@ + output,
            InstallErrorView::NoFileName(dest) => dest + " does not have a file name"@,
            InstallErrorView::HashMismatch => "File hash mismatch after transfer"@,
            InstallErrorView::NotRunning(log) => NOT_RUNNING@ + log,
        }
    }
}

/// What is said where no device is found.
pub const NO_DEVICE: &'static str = "No Android device found.\n\nPlease ensure:\n1. USB debugging is enabled in Developer Options\n2. The device is connected via USB\n3. You have authorized this computer for ADB access on the device\n\nYou can verify with: adb devices";

/// What is said where there is no root access, ahead of what `id` said.
pub const NO_ROOT: &'static str = "Root access not available.\n\nPlease ensure:\n1. Your device is rooted (Magisk, KernelSU, etc.)\n2. You have granted root access to the shell/ADB\n\nOutput from 'su -c id': ";

/// What is said where there is no Shannon modem.
pub const NO_MODEM: &'static str = "Samsung Shannon modem not found at /dev/umts_dm0.\n\nThis installer is designed for Pixel 6+ devices with Samsung Shannon modems.\nYour device may have a different modem type or the diagnostic interface\nmay not be exposed.\n\nTry checking: ls -la /dev/umts_*";

/// What is said where the daemon is not running, ahead of its log.
pub const NOT_RUNNING: &'static str =
    "Rayhunter daemon is not running.\n\nLast log entries:\n";

impl InstallError {
    /// The error in words.
    pub fn message(&self) -> (text: String)
        ensures
            text@ == self@.message(),
    {
        match self {
            InstallError::NoDevice => NO_DEVICE.to_owned(),
            InstallError::NoRoot(output) => joined(NO_ROOT, output.as_str()),
            InstallError::NoModem => NO_MODEM.to_owned(),
            InstallError::OutputMissing { expected, output } => {
                let mut text = quoted(expected.as_str());
                text.append(" not found in: ");
                text.append(output.as_str());
                text
            },
            InstallError::NoFileName(dest) => joined(dest.as_str(), " does not have a file name"),
            InstallError::HashMismatch => "File hash mismatch after transfer".to_owned(),
            InstallError::NotRunning(log) => joined(NOT_RUNNING, log.as_str()),
        }
    }
}

/// What the output of a command is held against.
#[derive(Debug)]
pub enum Check {
    /// The shell runs as root.
    Root,
    /// The modem's device file was listed.
    Modem,
    /// The text occurs, if there is any text.
    Expect(String),
    /// The digest occurs.
    Digest(String),
    /// A process was listed.
    Running,
}

/// What a [`Check`] holds, as a mathematical value.
#[verifier::ext_equal]
pub enum CheckView {
    Root,
    Modem,
    Expect(Seq<char>),
    Digest(Seq<char>),
    Running,
}

impl View for Check {
    type V = CheckView;

    open spec fn view(&self) -> CheckView {
        match self {
            Check::Root => CheckView::Root,
            Check::Modem => CheckView::Modem,
            Check::Expect(text) => CheckView::Expect(text@),
            Check::Digest(text) => CheckView::Digest(text@),
            Check::Running => CheckView::Running,
        }
    }
}

/// What follows from the output of a command.
#[derive(Debug)]
pub enum Verdict {
    /// Go on.
    Pass,
    /// Give up.
    Fail(InstallError),
    /// Give up, with what the given command says; see [`not_running`].
    FailWithLog(Vec<String>),
}

/// What a [`Verdict`] holds, as a mathematical value.
#[verifier::ext_equal]
pub enum VerdictView {
    Pass,
    Fail(InstallErrorView),
    FailWithLog(Seq<Seq<char>>),
}

impl View for Verdict {
    type V = VerdictView;

    open spec fn view(&self) -> VerdictView {
        match self {
            Verdict::Pass => VerdictView::Pass,
            Verdict::Fail(error) => VerdictView::Fail(error@),
            Verdict::FailWithLog(command) => VerdictView::FailWithLog(text_views(command@)),
        }
    }
}

/// The command that shows the end of the daemon's log.
pub open spec fn log_command() -> Seq<Seq<char>> {
    seq!["su"@, "-c"@, "tail -20 "@ + RAYHUNTER_DATA_DIR@ + "/rayhunter.log"@]
}

impl CheckView {
    /// What follows from `output`.
    pub open spec fn verdict(self, output: Seq<char>) -> VerdictView {
        match self {
            CheckView::Root => if contains(output, "uid=0"@) {
                VerdictView::Pass
            } else {
                VerdictView::Fail(InstallErrorView::NoRoot(output))
            },
            CheckView::Modem => if contains(output, "No such file"@) || contains(
                output,
                "Permission denied"@,
            ) {
                VerdictView::Fail(InstallErrorView::NoModem)
            } else {
                VerdictView::Pass
            },
            CheckView::Expect(expected) => if expected.len() == 0 || contains(output, expected) {
                VerdictView::Pass
            } else {
                VerdictView::Fail(InstallErrorView::OutputMissing { expected, output })
            },
            CheckView::Digest(digest) => if contains(output, digest) {
                VerdictView::Pass
            } else {
                VerdictView::Fail(InstallErrorView::HashMismatch)
            },
            CheckView::Running => if blank(output) {
                VerdictView::FailWithLog(log_command())
            } else {
                VerdictView::Pass
            },
        }
    }
}

/// The words of a command with the given script for the root shell.
fn root_shell(script: String) -> (words: Vec<String>)
    ensures
        text_views(words@) == seq!["su"@, "-c"@, script@],
{
    let words = vec!["su".to_owned(), "-c".to_owned(), script];
    assert(text_views(words@) =~= seq!["su"@, "-c"@, script@]);
    words
}

impl Check {
    /// What follows from `output`, as text.
    pub fn verdict_on_text(&self, output: &str) -> (verdict: Verdict)
        ensures
            verdict@ == self@.verdict(output@),
    {
        match self {
            Check::Root => if text_contains(output, "uid=0") {
                Verdict::Pass
            } else {
                Verdict::Fail(InstallError::NoRoot(output.to_owned()))
            },
            Check::Modem => if text_contains(output, "No such file") || text_contains(
                output,
                "Permission denied",
            ) {
                Verdict::Fail(InstallError::NoModem)
            } else {
                Verdict::Pass
            },
            Check::Expect(expected) => if expected.as_str().is_empty() || text_contains(
                output,
                expected.as_str(),
            ) {
                Verdict::Pass
            } else {
                Verdict::Fail(
                    InstallError::OutputMissing {
                        expected: expected.clone(),
                        output: output.to_owned(),
                    },
                )
            },
            Check::Digest(digest) => if text_contains(output, digest.as_str()) {
                Verdict::Pass
            } else {
                Verdict::Fail(InstallError::HashMismatch)
            },
            Check::Running => if is_blank(output) {
                let mut script = joined("tail -20 ", RAYHUNTER_DATA_DIR);
                script.append("/rayhunter.log");
                Verdict::FailWithLog(root_shell(script))
            } else {
                Verdict::Pass
            },
        }
    }

    /// What follows from the bytes that a command wrote.
    pub fn verdict(&self, output: &[u8]) -> (verdict: Verdict)
        ensures
            verdict@ == self@.verdict(lossy_utf8(output@)),
    {
        self.verdict_on_text(lossy_text(output).as_str())
    }
}

/// The daemon is not running: the error, with the end of its log.
pub fn not_running(log: &[u8]) -> (error: InstallError)
    ensures
        error@ == InstallErrorView::NotRunning(lossy_utf8(log@)),
{
    InstallError::NotRunning(lossy_text(log))
}

/// Something to do on the device.
#[derive(Debug)]
pub enum Step {
    /// Run a command and hold its output against a check.
    Run { command: Vec<String>, check: Check },
    /// Send a file.
    Push { contents: Vec<u8>, path: String },
    /// Wait this many seconds.
    Sleep(u64),
}

/// What a [`Step`] holds, as a mathematical value.
#[verifier::ext_equal]
pub enum StepView {
    Run { command: Seq<Seq<char>>, check: CheckView },
    Push { contents: Seq<u8>, path: Seq<char> },
    Sleep(u64),
}

impl View for Step {
    type V = StepView;

    open spec fn view(&self) -> StepView {
        match self {
            Step::Run { command, check } => StepView::Run {
                command: text_views(command@),
                check: check@,
            },
            Step::Push { contents, path } => StepView::Push { contents: contents@, path: path@ },
            Step::Sleep(secs) => StepView::Sleep(*secs),
        }
    }
}

impl StepView {
    /// What follows from what the step wrote.
    pub open spec fn verdict(self, output: Seq<char>) -> VerdictView {
        match self {
            StepView::Run { check, .. } => check.verdict(output),
            _ => VerdictView::Pass,
        }
    }
}

impl Step {
    /// What follows from what the step wrote, if it wrote anything.
    pub fn verdict(&self, output: &[u8]) -> (verdict: Verdict)
        ensures
            verdict@ == self@.verdict(lossy_utf8(output@)),
    {
        match self {
            Step::Run { check, .. } => check.verdict(output),
            _ => Verdict::Pass,
        }
    }
}

/// Steps that belong together: each is done only if the ones before it passed.
#[derive(Debug)]
pub struct Phase {
    /// What to announce; may be empty.
    pub title: String,
    /// What to add to an error; may be empty.
    pub context: String,
    /// Whether to go on though a step fails.
    pub ignore_failure: bool,
    pub steps: Vec<Step>,
}

/// What a [`Phase`] holds, as a mathematical value.
#[verifier::ext_equal]
pub struct PhaseView {
    pub title: Seq<char>,
    pub context: Seq<char>,
    pub ignore_failure: bool,
    pub steps: Seq<StepView>,
}

impl View for Phase {
    type V = PhaseView;

    open spec fn view(&self) -> PhaseView {
        PhaseView {
            title: self.title@,
            context: self.context@,
            ignore_failure: self.ignore_failure,
            steps: self.steps@.map_values(|step: Step| step@),
        }
    }
}

/// What a plan holds, as a mathematical value.
pub open spec fn plan_view(plan: Seq<Phase>) -> Seq<PhaseView> {
    plan.map_values(|phase: Phase| phase@)
}

/// A phase that announces itself and takes its failures seriously.
pub open spec fn phase(title: Seq<char>, steps: Seq<StepView>) -> PhaseView {
    PhaseView { title, context: ""@, ignore_failure: false, steps }
}

/// A step that runs a script in the root shell.
pub open spec fn as_root(script: Seq<char>, check: CheckView) -> StepView {
    StepView::Run { command: seq!["su"@, "-c"@, script], check }
}

/// A step that runs a command, has its exit code printed, and expects the
/// output to say something.
pub open spec fn expecting(command: Seq<Seq<char>>, expected: Seq<char>) -> StepView {
    StepView::Run {
        command: command + seq![";"@, "echo"@, "exit code $?"@],
        check: CheckView::Expect(expected),
    }
}

/// The same, of a script in the root shell.
pub open spec fn as_root_expecting(script: Seq<char>, expected: Seq<char>) -> StepView {
    expecting(seq!["su"@, "-c"@, script], expected)
}

/// Where a file is sent before it is moved into place.
pub open spec fn temporary_path(name: Seq<char>) -> Seq<char> {
    "/data/local/tmp/"@ + name
}

/// Whether a file is made executable.
pub open spec fn executable(dest: Seq<char>) -> bool {
    contains(dest, "daemon"@) || contains(dest, ".sh"@)
}

/// Installing a file of a given name, if it has one, with root permissions: send
/// it to a temporary place that does not need root, hold its digest there
/// against that of what was sent, move it into place, and make it executable if
/// it is to be.
pub open spec fn file_phase(
    dest: Seq<char>,
    name: Option<Seq<char>>,
    payload: Seq<u8>,
) -> Result<PhaseView, InstallErrorView> {
    match name {
        None => Err(InstallErrorView::NoFileName(dest)),
        Some(name) => {
            let path = temporary_path(name);
            let transfer = seq![
                StepView::Push { contents: payload, path },
                StepView::Run {
                    command: seq!["md5sum"@, path],
                    check: CheckView::Digest(hex(md5_digest(payload))),
                },
                as_root_expecting("mv "@ + path + " "@ + dest, "exit code 0"@),
            ];
            let steps = if executable(dest) {
                transfer.push(as_root_expecting("chmod 755 "@ + dest, "exit code 0"@))
            } else {
                transfer
            };
            Ok(phase("Sending file "@ + dest + " ... "@, steps))
        },
    }
}

/// A step that runs a script in the root shell.
fn root_step(script: String, check: Check) -> (step: Step)
    ensures
        step@ == as_root(script@, check@),
{
    Step::Run { command: root_shell(script), check }
}

/// Run an adb shell command and verify output contains expected string.
pub fn run_command(command: Vec<String>, expected_output: &str) -> (step: Step)
    ensures
        step@ == expecting(text_views(command@), expected_output@),
{
    let ghost given = text_views(command@);
    let mut command = command;
    command.push(";".to_owned());
    command.push("echo".to_owned());
    command.push("exit code $?".to_owned());
    assert(text_views(command@) =~= given + seq![";"@, "echo"@, "exit code $?"@]);
    Step::Run { command, check: Check::Expect(expected_output.to_owned()) }
}

/// A phase that announces itself and takes its failures seriously.
fn make_phase(title: String, steps: Vec<Step>) -> (made: Phase)
    ensures
        made@ == phase(title@, steps@.map_values(|step: Step| step@)),
{
    Phase { title, context: "".to_owned(), ignore_failure: false, steps }
}

/// A phase of one step.
fn single(title: &str, step: Step) -> (made: Phase)
    ensures
        made@ == phase(title@, seq![step@]),
{
    let made = make_phase(title.to_owned(), vec![step]);
    assert(made@.steps =~= seq![step@]);
    made
}

/// `result` holds what `expected` says.
pub open spec fn phase_result(
    result: Result<Phase, InstallError>,
    expected: Result<PhaseView, InstallErrorView>,
) -> bool {
    match expected {
        Ok(made) => result is Ok && result->Ok_0@ == made,
        Err(error) => result is Err && result->Err_0@ == error,
    }
}

/// Install a file to the device with root permissions, under the name that the
/// host finds in its destination.
pub fn install_file_as_root(dest: &str, payload: &[u8]) -> (result: Result<Phase, InstallError>)
    ensures
        plain_path(dest@) ==> phase_result(
            result,
            file_phase(dest@, file_name_in(dest@), payload@),
        ),
        exists|name: Option<Seq<char>>|
            phase_result(result, #[trigger] file_phase(dest@, name, payload@)),
{
    let name = file_name(dest);
    let ghost found = optional_text(name);
    let result = install_named_file(dest, name, payload);
    assert(phase_result(result, file_phase(dest@, found, payload@)));
    result
}

/// Install a file of a given name, if it has one, to the device with root
/// permissions.
pub fn install_named_file(dest: &str, name: Option<String>, payload: &[u8]) -> (result: Result<
    Phase,
    InstallError,
>)
    ensures
        phase_result(result, file_phase(dest@, optional_text(name), payload@)),
{
    let name = match name {
        Some(name) => name,
        None => return Err(InstallError::NoFileName(dest.to_owned())),
    };
    // Push to temp location first (doesn't need root)
    let path = joined("/data/local/tmp/", name.as_str());
    let push = Step::Push { contents: slice_to_vec(payload), path: path.clone() };

    // Verify hash
    let md5sum = vec!["md5sum".to_owned(), path.clone()];
    assert(text_views(md5sum@) =~= seq!["md5sum"@, path@]);
    let verify = Step::Run { command: md5sum, check: Check::Digest(md5_hex(payload)) };

    // Move to final destination with root
    let mut script = joined("mv ", path.as_str());
    script.append(" ");
    script.append(dest);
    let mut steps = vec![push, verify, run_command(root_shell(script), "exit code 0")];

    // Set permissions (executable for binaries)
    if text_contains(dest, "daemon") || text_contains(dest, ".sh") {
        steps.push(run_command(root_shell(joined("chmod 755 ", dest)), "exit code 0"));
    }
    let mut title = joined("Sending file ", dest);
    title.append(" ... ");
    let made = make_phase(title, steps);
    assert(made@.steps =~= file_phase(dest@, Some(name@), payload@)->Ok_0.steps);
    Ok(made)
}

/// Checking that the root shell is root's.
pub open spec fn root_phase() -> PhaseView {
    phase("Checking root access ... "@, seq![as_root("id"@, CheckView::Root)])
}

/// Checking that the modem's device file can be listed.
pub open spec fn modem_phase() -> PhaseView {
    phase(
        "Checking for Samsung Shannon modem ... "@,
        seq![as_root("ls -la /dev/umts_dm0"@, CheckView::Modem)],
    )
}

/// Starting the daemon by its script.
pub open spec fn start_phase() -> PhaseView {
    PhaseView {
        title: "Starting rayhunter daemon ... "@,
        context: "Failed to start rayhunter daemon"@,
        ignore_failure: false,
        steps: seq![as_root_expecting(RAYHUNTER_SERVICE_SCRIPT@, "Rayhunter started"@)],
    }
}

/// Checking that there is a process of the daemon.
pub open spec fn running_phase() -> PhaseView {
    phase(
        "Verifying rayhunter is running ... "@,
        seq![as_root("pgrep -f rayhunter-daemon"@, CheckView::Running)],
    )
}

/// Verify the device has root access.
pub fn verify_root_access() -> (made: Phase)
    ensures
        made@ == root_phase(),
{
    single("Checking root access ... ", root_step("id".to_owned(), Check::Root))
}

/// Verify the device has a Samsung Shannon modem.
pub fn verify_shannon_modem() -> (made: Phase)
    ensures
        made@ == modem_phase(),
{
    single(
        "Checking for Samsung Shannon modem ... ",
        root_step("ls -la /dev/umts_dm0".to_owned(), Check::Modem),
    )
}

/// Start the rayhunter daemon.
pub fn start_daemon() -> (made: Phase)
    ensures
        made@ == start_phase(),
{
    let script = RAYHUNTER_SERVICE_SCRIPT.to_owned();
    let steps = vec![run_command(root_shell(script), "Rayhunter started")];
    let made = Phase {
        title: "Starting rayhunter daemon ... ".to_owned(),
        context: "Failed to start rayhunter daemon".to_owned(),
        ignore_failure: false,
        steps,
    };
    assert(made@.steps =~= seq![
        as_root_expecting(RAYHUNTER_SERVICE_SCRIPT@, "Rayhunter started"@),
    ]);
    made
}

/// Verify rayhunter is running.
pub fn verify_running() -> (made: Phase)
    ensures
        made@ == running_phase(),
{
    single(
        "Verifying rayhunter is running ... ",
        root_step("pgrep -f rayhunter-daemon".to_owned(), Check::Running),
    )
}

/// Installing on a device that has been found: nothing is changed on it until
/// it has shown root access and a Shannon modem.
pub open spec fn install_phases(daemon: Seq<u8>, config_toml: Seq<char>) -> Seq<PhaseView> {
    let daemon_path = RAYHUNTER_DATA_DIR@ + "/rayhunter-daemon"@;
    let config_path = RAYHUNTER_DATA_DIR@ + "/config.toml"@;
    seq![
        root_phase(),
        modem_phase(),
        phase(
            "Creating data directory ... "@,
            seq![as_root_expecting("mkdir -p "@ + RAYHUNTER_DATA_DIR@, "exit code 0"@)],
        ),
        file_phase(daemon_path, Some("rayhunter-daemon"@), daemon)->Ok_0,
        file_phase(
            config_path,
            Some("config.toml"@),
            encode_utf8(android_config(config_toml)),
        )->Ok_0,
        file_phase(
            RAYHUNTER_SERVICE_SCRIPT@,
            Some("start-rayhunter.sh"@),
            encode_utf8(startup_script()),
        )->Ok_0,
        phase(
            ""@,
            seq![as_root_expecting("chmod 755 "@ + RAYHUNTER_SERVICE_SCRIPT@, "exit code 0"@)],
        ),
        start_phase(),
        phase(""@, seq![StepView::Sleep(STARTUP_SECS)]),
        running_phase(),
    ]
}

/// Every file that is installed has its name on every host.
proof fn lemma_installed_files_have_names()
    ensures
        plain_path(RAYHUNTER_DATA_DIR@ + "/rayhunter-daemon"@),
        plain_path(RAYHUNTER_DATA_DIR@ + "/config.toml"@),
        plain_path(RAYHUNTER_SERVICE_SCRIPT@),
        file_name_in(RAYHUNTER_DATA_DIR@ + "/rayhunter-daemon"@) == Some("rayhunter-daemon"@),
        file_name_in(RAYHUNTER_DATA_DIR@ + "/config.toml"@) == Some("config.toml"@),
        file_name_in(RAYHUNTER_SERVICE_SCRIPT@) == Some("start-rayhunter.sh"@),
{
    reveal_strlit("");
    reveal_strlit(".");
    reveal_strlit("..");
    reveal_strlit("/data/local/tmp/rayhunter");
    reveal_strlit("rayhunter-daemon");
    reveal_strlit("/rayhunter-daemon");
    reveal_strlit("config.toml");
    reveal_strlit("/config.toml");
    reveal_strlit("start-rayhunter.sh");
    reveal_strlit("/data/local/tmp/rayhunter/start-rayhunter.sh");
    let dir = RAYHUNTER_DATA_DIR@;
    assert(dir + "/rayhunter-daemon"@ =~= dir.push('/') + "rayhunter-daemon"@);
    law_file_name_of_child(dir, "rayhunter-daemon"@);
    assert(dir + "/config.toml"@ =~= dir.push('/') + "config.toml"@);
    law_file_name_of_child(dir, "config.toml"@);
    assert(RAYHUNTER_SERVICE_SCRIPT@ =~= dir.push('/') + "start-rayhunter.sh"@);
    law_file_name_of_child(dir, "start-rayhunter.sh"@);
}

/// Install rayhunter on an Android device (Pixel 6+), given the daemon's binary
/// and the usual configuration.
pub fn install(daemon: &[u8], config_toml: &str) -> (plan: Vec<Phase>)
    ensures
        plan_view(plan@) == install_phases(daemon@, config_toml@),
{
    proof {
        lemma_installed_files_have_names();
    }
    let daemon_path = joined(RAYHUNTER_DATA_DIR, "/rayhunter-daemon");
    let config_path = joined(RAYHUNTER_DATA_DIR, "/config.toml");
    let config = generate_config(config_toml);
    let script = generate_startup_script();
    let mkdir = root_shell(joined("mkdir -p ", RAYHUNTER_DATA_DIR));
    let chmod = root_shell(joined("chmod 755 ", RAYHUNTER_SERVICE_SCRIPT));
    let plan = vec![
        verify_root_access(),
        verify_shannon_modem(),
        single("Creating data directory ... ", run_command(mkdir, "exit code 0")),
        install_file_as_root(daemon_path.as_str(), daemon).unwrap(),
        install_file_as_root(config_path.as_str(), config.as_str().as_bytes()).unwrap(),
        install_file_as_root(RAYHUNTER_SERVICE_SCRIPT, script.as_str().as_bytes()).unwrap(),
        single("", run_command(chmod, "exit code 0")),
        start_daemon(),
        single("", Step::Sleep(STARTUP_SECS)),
        verify_running(),
    ];
    assert(plan_view(plan@) =~= install_phases(daemon@, config_toml@));
    plan
}

/// Uninstalling from a device that has been found: the daemon is stopped if it
/// runs, and the data directory removed.
pub open spec fn uninstall_phases() -> Seq<PhaseView> {
    seq![
        PhaseView {
            ignore_failure: true,
            ..phase(
                "Stopping rayhunter ... "@,
                seq![as_root_expecting("pkill -f rayhunter-daemon"@, ""@)],
            )
        },
        phase(
            "Removing files ... "@,
            seq![as_root_expecting("rm -rf "@ + RAYHUNTER_DATA_DIR@, "exit code 0"@)],
        ),
    ]
}

/// Uninstall rayhunter from the device.
pub fn uninstall() -> (plan: Vec<Phase>)
    ensures
        plan_view(plan@) == uninstall_phases(),
{
    let pkill = root_shell("pkill -f rayhunter-daemon".to_owned());
    let mut stop = single("Stopping rayhunter ... ", run_command(pkill, ""));
    stop.ignore_failure = true;
    let rm = root_shell(joined("rm -rf ", RAYHUNTER_DATA_DIR));
    let plan = vec![stop, single("Removing files ... ", run_command(rm, "exit code 0"))];
    assert(plan_view(plan@) =~= uninstall_phases());
    plan
}

/// What came of carrying out a step.
#[derive(Debug)]
pub enum Event {
    /// It was carried out; what it wrote, if anything.
    Output(Vec<u8>),
    /// It could not be carried out.
    Broken,
}

/// What an [`Event`] holds, as a mathematical value: the output as text.
#[verifier::ext_equal]
pub enum EventView {
    Output(Seq<char>),
    Broken,
}

impl View for Event {
    type V = EventView;

    open spec fn view(&self) -> EventView {
        match self {
            Event::Output(bytes) => EventView::Output(lossy_utf8(bytes@)),
            Event::Broken => EventView::Broken,
        }
    }
}

/// Where a plan stands after a step.
#[derive(Debug)]
pub enum Progress {
    /// The phase goes on.
    StepDone,
    /// The phase is through.
    PhaseDone,
    /// The plan is given up.
    Failed(InstallError),
    /// The plan is given up, with what the given command says; see
    /// [`not_running`].
    FailedWithLog(Vec<String>),
    /// The plan is given up: a step could not be carried out.
    Broken,
}

/// What a [`Progress`] holds, as a mathematical value.
#[verifier::ext_equal]
pub enum ProgressView {
    StepDone,
    PhaseDone,
    Failed(InstallErrorView),
    FailedWithLog(Seq<Seq<char>>),
    Broken,
}

impl View for Progress {
    type V = ProgressView;

    open spec fn view(&self) -> ProgressView {
        match self {
            Progress::StepDone => ProgressView::StepDone,
            Progress::PhaseDone => ProgressView::PhaseDone,
            Progress::Failed(error) => ProgressView::Failed(error@),
            Progress::FailedWithLog(command) => ProgressView::FailedWithLog(
                text_views(command@),
            ),
            Progress::Broken => ProgressView::Broken,
        }
    }
}

/// The state of an [`Installer`], as a mathematical value.
#[verifier::ext_equal]
pub struct InstallerView {
    pub plan: Seq<PhaseView>,
    /// The phase that the plan is in.
    pub phase: nat,
    /// The step of that phase to carry out.
    pub step: nat,
    /// Whether the plan has been given up.
    pub stopped: bool,
}

impl InstallerView {
    /// At the start of a plan.
    pub open spec fn of_plan(plan: Seq<PhaseView>) -> InstallerView {
        InstallerView { plan, phase: 0, step: 0, stopped: false }
    }

    /// Every phase has steps, and the state is at one of them or past them all.
    pub open spec fn wf(self) -> bool {
        &&& forall|i: int| 0 <= i < self.plan.len() ==> (#[trigger] self.plan[i]).steps.len() > 0
        &&& self.phase <= self.plan.len()
        &&& self.phase < self.plan.len() ==> self.step < self.current_phase().steps.len()
    }

    /// There is a step to carry out.
    pub open spec fn running(self) -> bool {
        !self.stopped && self.phase < self.plan.len()
    }

    /// The phase that the plan is in.
    pub open spec fn current_phase(self) -> PhaseView {
        self.plan[self.phase as int]
    }

    /// The step to carry out.
    pub open spec fn current(self) -> StepView {
        self.current_phase().steps[self.step as int]
    }

    /// What follows from an event, by the check of the current step alone;
    /// `None` if the step could not be carried out.
    pub open spec fn verdict(self, event: EventView) -> Option<VerdictView> {
        match event {
            EventView::Output(output) => Some(self.current().verdict(output)),
            EventView::Broken => None,
        }
    }

    /// The current step passed.
    pub open spec fn passed(self, event: EventView) -> bool {
        self.verdict(event) == Some(VerdictView::Pass)
    }

    /// The current step is the last of its phase.
    pub open spec fn at_last_step(self) -> bool {
        self.step + 1 == self.current_phase().steps.len()
    }

    /// After an event: on to the next step or phase if the current step passed;
    /// on to the next phase if it did not and that is no matter; given up
    /// otherwise.
    pub open spec fn after(self, event: EventView) -> InstallerView {
        if self.passed(event) && !self.at_last_step() {
            InstallerView { step: self.step + 1, ..self }
        } else if self.passed(event) || self.current_phase().ignore_failure {
            InstallerView { phase: self.phase + 1, step: 0, ..self }
        } else {
            InstallerView { stopped: true, ..self }
        }
    }

    /// Where the plan stands after an event.
    pub open spec fn progress(self, event: EventView) -> ProgressView {
        if self.passed(event) && !self.at_last_step() {
            ProgressView::StepDone
        } else if self.passed(event) || self.current_phase().ignore_failure {
            ProgressView::PhaseDone
        } else {
            match self.verdict(event) {
                Some(VerdictView::Fail(error)) => ProgressView::Failed(error),
                Some(VerdictView::FailWithLog(command)) => ProgressView::FailedWithLog(command),
                _ => ProgressView::Broken,
            }
        }
    }
}

/// The execution of a plan: says which step to carry out, and takes in what
/// came of it.
#[derive(Debug)]
pub struct Installer {
    pub plan: Vec<Phase>,
    pub phase: usize,
    pub step: usize,
    pub stopped: bool,
}

impl View for Installer {
    type V = InstallerView;

    open spec fn view(&self) -> InstallerView {
        InstallerView {
            plan: plan_view(self.plan@),
            phase: self.phase as nat,
            step: self.step as nat,
            stopped: self.stopped,
        }
    }
}

impl Installer {
    /// At the start of an installation.
    pub fn of_install(daemon: &[u8], config_toml: &str) -> (installer: Self)
        ensures
            installer@ == InstallerView::of_plan(install_phases(daemon@, config_toml@)),
            installer@.wf(),
    {
        proof {
            lemma_installed_files_have_names();
        }
        Installer { plan: install(daemon, config_toml), phase: 0, step: 0, stopped: false }
    }

    /// At the start of an uninstallation.
    pub fn of_uninstall() -> (installer: Self)
        ensures
            installer@ == InstallerView::of_plan(uninstall_phases()),
            installer@.wf(),
    {
        Installer { plan: uninstall(), phase: 0, step: 0, stopped: false }
    }

    /// The phase that the plan is in, if there is a step to carry out.
    pub fn current_phase(&self) -> (phase: Option<&Phase>)
        requires
            self@.wf(),
        ensures
            phase is Some <==> self@.running(),
            phase is Some ==> phase->0@ == self@.current_phase(),
    {
        if !self.stopped && self.phase < self.plan.len() {
            Some(&self.plan[self.phase])
        } else {
            None
        }
    }

    /// The step to carry out, if there is one.
    pub fn current(&self) -> (step: Option<&Step>)
        requires
            self@.wf(),
        ensures
            step is Some <==> self@.running(),
            step is Some ==> step->0@ == self@.current(),
    {
        match self.current_phase() {
            Some(phase) => Some(&phase.steps[self.step]),
            None => None,
        }
    }

    /// Take in what came of the current step.
    pub fn advance(&mut self, event: Event) -> (progress: Progress)
        requires
            old(self)@.wf(),
            old(self)@.running(),
        ensures
            final(self)@ == old(self)@.after(event@),
            final(self)@.wf(),
            progress@ == old(self)@.progress(event@),
    {
        let ghost before = self@;
        assert(self.phase < self.plan.len());
        assert(self.plan@[self.phase as int]@ == before.current_phase());
        let phase = &self.plan[self.phase];
        let step = &phase.steps[self.step];
        assert(step@ == before.current());
        let ignore_failure = phase.ignore_failure;
        let steps: usize = phase.steps.len();
        let verdict = match &event {
            Event::Output(output) => Some(step.verdict(output.as_slice())),
            Event::Broken => None,
        };
        let passed = matches!(verdict, Some(Verdict::Pass));
        if passed && self.step + 1 < steps {
            self.step += 1;
            return Progress::StepDone;
        }
        if passed || ignore_failure {
            self.phase += 1;
            self.step = 0;
            return Progress::PhaseDone;
        }
        self.stopped = true;
        match verdict {
            Some(Verdict::Fail(error)) => Progress::Failed(error),
            Some(Verdict::FailWithLog(command)) => Progress::FailedWithLog(command),
            _ => Progress::Broken,
        }
    }
}

/// A plan comes to its end: with every event it is nearer to it, or given up.
pub proof fn law_plans_end(state: InstallerView, event: EventView)
    requires
        state.wf(),
        state.running(),
    ensures
        state.after(event).wf(),
        !state.after(event).running() || state.after(event).phase > state.phase || (state.after(
            event,
        ).phase == state.phase && state.after(event).step > state.step),
{
}

/// What fails is not gone on from, unless failing is no matter: the plan is
/// given up, and no step is left to carry out.
pub proof fn law_failure_stops(state: InstallerView, event: EventView)
    requires
        state.wf(),
        state.running(),
        !state.passed(event),
        !state.current_phase().ignore_failure,
    ensures
        !state.after(event).running(),
        state.progress(event) !is StepDone && state.progress(event) !is PhaseDone,
{
}

/// A file is moved into place only if its digest on the device was that of what
/// was sent: the steps of its phase after the second are reached only from the
/// second, and from there only by an output that holds the digest.
pub proof fn law_moved_only_if_intact(
    state: InstallerView,
    event: EventView,
    dest: Seq<char>,
    name: Option<Seq<char>>,
    payload: Seq<u8>,
)
    requires
        state.wf(),
        state.running(),
        file_phase(dest, name, payload) == Ok::<PhaseView, InstallErrorView>(state.current_phase()),
        state.step < 2,
    ensures
        state.step == 0 ==> (state.current() matches StepView::Push { contents, .. } && contents
            == payload),
        state.after(event).phase == state.phase && state.after(event).step >= 2 ==> {
            &&& state.step == 1
            &&& event matches EventView::Output(output)
            &&& contains(output, hex(md5_digest(payload)))
        },
        state.after(event).phase == state.phase,
{
}

/// An installation changes nothing on the device before it has shown root
/// access and the modem: it begins with the two questions, and goes on from
/// either only with the answer.
pub proof fn law_checked_before_changed(
    state: InstallerView,
    event: EventView,
    daemon: Seq<u8>,
    config_toml: Seq<char>,
)
    requires
        state.wf(),
        state.running(),
        state.plan == install_phases(daemon, config_toml),
        state.phase < 2,
    ensures
        state.current() == as_root("id"@, CheckView::Root) || state.current() == as_root(
            "ls -la /dev/umts_dm0"@,
            CheckView::Modem,
        ),
        state.after(event).phase <= state.phase + 1,
        state.after(event).phase > state.phase ==> {
            &&& event matches EventView::Output(output)
            &&& state.phase == 0 ==> contains(output, "uid=0"@)
            &&& state.phase == 1 ==> !contains(output, "No such file"@) && !contains(
                output,
                "Permission denied"@,
            )
        },
{
}

/// Every file of an installation is sent under its own name, with the contents
/// that it is to have.
pub proof fn law_installed_files(daemon: Seq<u8>, config_toml: Seq<char>)
    ensures
        install_phases(daemon, config_toml)[3].steps[0] == (StepView::Push {
            contents: daemon,
            path: temporary_path("rayhunter-daemon"@),
        }),
        install_phases(daemon, config_toml)[4].steps[0] == (StepView::Push {
            contents: encode_utf8(android_config(config_toml)),
            path: temporary_path("config.toml"@),
        }),
        install_phases(daemon, config_toml)[5].steps[0] == (StepView::Push {
            contents: encode_utf8(startup_script()),
            path: temporary_path("start-rayhunter.sh"@),
        }),
{
    lemma_installed_files_have_names();
}

/// No failure is passed over in an installation; and in an uninstallation only
/// that of stopping the daemon, which may not be running.
pub proof fn law_failures_count(daemon: Seq<u8>, config_toml: Seq<char>)
    ensures
        forall|i: int|
            0 <= i < install_phases(daemon, config_toml).len() ==> !(
            #[trigger] install_phases(daemon, config_toml)[i]).ignore_failure,
        forall|i: int|
            0 <= i < uninstall_phases().len() ==> ((
            #[trigger] uninstall_phases()[i]).ignore_failure <==> i == 0),
{
    lemma_installed_files_have_names();
}

/// A device is looked for under the ID asked for, if any, and then under the
/// four that Pixels have: with ADB alone, with MTP, with PTP, and in fastboot.
pub proof fn law_product_ids(id: u16)
    ensures
        product_ids(None) == seq![0x4EE7u16, 0x4EE2, 0x4EE5, 0xD001],
        product_ids(Some(id)) == seq![id, 0x4EE7u16, 0x4EE2, 0x4EE5, 0xD001],
        GOOGLE_USB_VENDOR_ID == 0x18D1,
{
    assert(product_ids(None) =~= seq![0x4EE7u16, 0x4EE2, 0x4EE5, 0xD001]);
    assert(product_ids(Some(id)) =~= seq![id, 0x4EE7u16, 0x4EE2, 0x4EE5, 0xD001]);
}

/// What each check asks of an output, and what is said where it is not met.
pub proof fn law_verdicts(before: Seq<char>, after: Seq<char>, output: Seq<char>, text: Seq<char>)
    ensures
        CheckView::Root.verdict(before + "uid=0"@ + after) is Pass,
        !contains(output, "uid=0"@) ==> CheckView::Root.verdict(output) == VerdictView::Fail(
            InstallErrorView::NoRoot(output),
        ),
        CheckView::Modem.verdict(before + "No such file"@ + after) == VerdictView::Fail(
            InstallErrorView::NoModem,
        ),
        CheckView::Modem.verdict(before + "Permission denied"@ + after) == VerdictView::Fail(
            InstallErrorView::NoModem,
        ),
        !contains(output, "No such file"@) && !contains(output, "Permission denied"@)
            ==> CheckView::Modem.verdict(output) is Pass,
        CheckView::Expect(text).verdict(before + text + after) is Pass,
        CheckView::Expect(Seq::empty()).verdict(output) is Pass,
        text.len() > 0 && !contains(output, text) ==> CheckView::Expect(text).verdict(output)
            == VerdictView::Fail(InstallErrorView::OutputMissing { expected: text, output }),
        CheckView::Digest(text).verdict(before + text + after) is Pass,
        !contains(output, text) ==> CheckView::Digest(text).verdict(output) == VerdictView::Fail(
            InstallErrorView::HashMismatch,
        ),
        CheckView::Running.verdict(output) is Pass <==> !blank(output),
        blank(output) ==> CheckView::Running.verdict(output) == VerdictView::FailWithLog(
            seq!["su"@, "-c"@, "tail -20 "@ + "/data/local/tmp/rayhunter"@ + "/rayhunter.log"@],
        ),
{
    law_contains(before, "uid=0"@, after, output);
    law_contains(before, "No such file"@, after, output);
    law_contains(before, "Permission denied"@, after, output);
    law_contains(before, text, after, output);
}

/// What is said of each failure.
pub proof fn law_error_texts(output: Seq<char>)
    ensures
        InstallErrorView::NoDevice.message()
            == "No Android device found.\n\nPlease ensure:\n1. USB debugging is enabled in Developer Options\n2. The device is connected via USB\n3. You have authorized this computer for ADB access on the device\n\nYou can verify with: adb devices"@,
        InstallErrorView::NoRoot(output).message()
            == "Root access not available.\n\nPlease ensure:\n1. Your device is rooted (Magisk, KernelSU, etc.)\n2. You have granted root access to the shell/ADB\n\nOutput from 'su -c id': "@
            + output,
        InstallErrorView::NoModem.message()
            == "Samsung Shannon modem not found at /dev/umts_dm0.\n\nThis installer is designed for Pixel 6+ devices with Samsung Shannon modems.\nYour device may have a different modem type or the diagnostic interface\nmay not be exposed.\n\nTry checking: ls -la /dev/umts_*"@,
        InstallErrorView::NotRunning(output).message()
            == "Rayhunter daemon is not running.\n\nLast log entries:\n"@ + output,
        InstallErrorView::NoFileName(output).message() == output + " does not have a file name"@,
        InstallErrorView::HashMismatch.message() == "File hash mismatch after transfer"@,
{
}

/// The steps that install a file: send it to `/data/local/tmp` under its name,
/// ask for its digest there, move it, and only then, where the destination
/// speaks of a daemon or of a shell script, make it executable. Both root
/// commands have to end well.
pub proof fn law_file_steps(
    dest: Seq<char>,
    name: Seq<char>,
    payload: Seq<u8>,
    before: Seq<char>,
    after: Seq<char>,
)
    ensures
        file_phase(dest, None, payload) == Err::<PhaseView, _>(InstallErrorView::NoFileName(dest)),
        file_phase(dest, Some(name), payload) matches Ok(file) && {
            let path = "/data/local/tmp/"@ + name;
            let exit = seq![";"@, "echo"@, "exit code $?"@];
            &&& file.title == "Sending file "@ + dest + " ... "@
            &&& file.context == ""@ && !file.ignore_failure
            &&& file.steps[0] == StepView::Push { contents: payload, path }
            &&& file.steps[1] == (StepView::Run {
                command: seq!["md5sum"@, path],
                check: CheckView::Digest(hex(md5_digest(payload))),
            })
            &&& file.steps[2] == (StepView::Run {
                command: seq!["su"@, "-c"@, "mv "@ + path + " "@ + dest] + exit,
                check: CheckView::Expect("exit code 0"@),
            })
            &&& 3 <= file.steps.len() <= 4
            &&& file.steps.len() == 4 ==> file.steps[3] == (StepView::Run {
                command: seq!["su"@, "-c"@, "chmod 755 "@ + dest] + exit,
                check: CheckView::Expect("exit code 0"@),
            })
            &&& dest == before + "daemon"@ + after ==> file.steps.len() == 4
            &&& dest == before + ".sh"@ + after ==> file.steps.len() == 4
            &&& !contains(dest, "daemon"@) && !contains(dest, ".sh"@) ==> file.steps.len() == 3
        },
{
    law_contains(before, "daemon"@, after, dest);
    law_contains(before, ".sh"@, after, dest);
}

/// An installation, phase by phase: the two questions, the directory, the three
/// files into it, the script made executable, run, given 3 seconds, and looked
/// for. Every command that changes something has to end well.
pub proof fn law_install_in_order(daemon: Seq<u8>, config_toml: Seq<char>)
    ensures
        ({
            let plan = install_phases(daemon, config_toml);
            let dir = "/data/local/tmp/rayhunter"@;
            let script = "/data/local/tmp/rayhunter/start-rayhunter.sh"@;
            let exit = seq![";"@, "echo"@, "exit code $?"@];
            &&& plan.len() == 10
            &&& plan[0].steps == seq![
                StepView::Run { command: seq!["su"@, "-c"@, "id"@], check: CheckView::Root },
            ]
            &&& plan[1].steps == seq![
                StepView::Run {
                    command: seq!["su"@, "-c"@, "ls -la /dev/umts_dm0"@],
                    check: CheckView::Modem,
                },
            ]
            &&& plan[2].steps == seq![
                StepView::Run {
                    command: seq!["su"@, "-c"@, "mkdir -p "@ + dir] + exit,
                    check: CheckView::Expect("exit code 0"@),
                },
            ]
            &&& plan[3] == file_phase(
                dir + "/rayhunter-daemon"@,
                Some("rayhunter-daemon"@),
                daemon,
            )->Ok_0
            &&& plan[4] == file_phase(
                dir + "/config.toml"@,
                Some("config.toml"@),
                encode_utf8(android_config(config_toml)),
            )->Ok_0
            &&& plan[5] == file_phase(
                script,
                Some("start-rayhunter.sh"@),
                encode_utf8(startup_script()),
            )->Ok_0
            &&& plan[6].steps == seq![
                StepView::Run {
                    command: seq!["su"@, "-c"@, "chmod 755 "@ + script] + exit,
                    check: CheckView::Expect("exit code 0"@),
                },
            ]
            &&& plan[7].steps == seq![
                StepView::Run {
                    command: seq!["su"@, "-c"@, script] + exit,
                    check: CheckView::Expect("Rayhunter started"@),
                },
            ]
            &&& plan[7].context == "Failed to start rayhunter daemon"@
            &&& plan[8].steps == seq![StepView::Sleep(3)]
            &&& plan[9].steps == seq![
                StepView::Run {
                    command: seq!["su"@, "-c"@, "pgrep -f rayhunter-daemon"@],
                    check: CheckView::Running,
                },
            ]
        }),
{
}

/// An uninstallation, phase by phase: the daemon is stopped, whether or not it
/// runs, and then the data directory is removed, which has to end well.
pub proof fn law_uninstall_in_order()
    ensures
        ({
            let plan = uninstall_phases();
            let exit = seq![";"@, "echo"@, "exit code $?"@];
            &&& plan.len() == 2
            &&& plan[0].steps == seq![
                StepView::Run {
                    command: seq!["su"@, "-c"@, "pkill -f rayhunter-daemon"@] + exit,
                    check: CheckView::Expect(""@),
                },
            ]
            &&& plan[0].ignore_failure
            &&& plan[1].steps == seq![
                StepView::Run {
                    command: seq!["su"@, "-c"@, "rm -rf "@ + "/data/local/tmp/rayhunter"@] + exit,
                    check: CheckView::Expect("exit code 0"@),
                },
            ]
            &&& !plan[1].ignore_failure
        }),
{
}

/// A step that passes leads to the next one of its phase, and the last one of a
/// phase to the first of the next phase; behind the last phase nothing is left
/// to do.
pub proof fn law_passing_goes_on(state: InstallerView, output: Seq<char>)
    requires
        state.wf(),
        state.running(),
        state.plan[state.phase as int].steps[state.step as int].verdict(output) is Pass,
    ensures
        ({
            let after = state.after(EventView::Output(output));
            let progress = state.progress(EventView::Output(output));
            let steps = state.plan[state.phase as int].steps;
            &&& after.plan == state.plan && !after.stopped
            &&& state.step + 1 < steps.len() ==> after.phase == state.phase && after.step
                == state.step + 1 && progress is StepDone
            &&& state.step + 1 == steps.len() ==> after.phase == state.phase + 1 && after.step == 0
                && progress is PhaseDone
            &&& after.phase == state.plan.len() ==> !after.running()
        }),
{
}

/// A step that does not pass, or could not be carried out, ends its phase: where
/// failing is no matter, the next phase begins; where it is, the plan is given
/// up, with the error that the check gives.
pub proof fn law_failing(state: InstallerView, event: EventView)
    requires
        state.wf(),
        state.running(),
        event matches EventView::Output(output) ==> !(
        state.plan[state.phase as int].steps[state.step as int].verdict(output) is Pass),
    ensures
        ({
            let phase = state.plan[state.phase as int];
            let after = state.after(event);
            let progress = state.progress(event);
            &&& phase.ignore_failure ==> after.phase == state.phase + 1 && after.step == 0
                && !after.stopped && progress is PhaseDone
            &&& !phase.ignore_failure ==> after.stopped
            &&& !phase.ignore_failure && event is Broken ==> progress is Broken
            &&& !phase.ignore_failure ==> (event matches EventView::Output(output) ==> {
                let verdict = phase.steps[state.step as int].verdict(output);
                &&& verdict matches VerdictView::Fail(error) ==> progress == ProgressView::Failed(
                    error,
                )
                &&& verdict matches VerdictView::FailWithLog(command) ==> progress
                    == ProgressView::FailedWithLog(command)
            })
        }),
{
}

/// The configuration of a device: the line that would choose another one chooses
/// the Pixel, and the store is in the data directory.
pub proof fn law_config_rewritten(before: Seq<char>, after: Seq<char>)
    ensures
        ({
            let from = "#device = \"orbic\""@;
            let to = "device = \"pixel9\""@;
            let store = "qmdl_store_path = \"/data/rayhunter/qmdl\""@;
            (forall|k: int|
                0 <= k < before.len() ==> #[trigger] (before + from + after).subrange(
                    k,
                    k + from.len(),
                ) != from) && !contains(after, from) && !contains(before + to + after, store)
                ==> android_config(before + from + after) == before + to + after
        }),
        ({
            let device = "#device = \"orbic\""@;
            let from = "qmdl_store_path = \"/data/rayhunter/qmdl\""@;
            let to = "qmdl_store_path = \""@ + "/data/local/tmp/rayhunter"@ + "/qmdl\""@;
            (forall|k: int|
                0 <= k < before.len() ==> #[trigger] (before + from + after).subrange(
                    k,
                    k + from.len(),
                ) != from) && !contains(after, from) && !contains(before + from + after, device)
                ==> android_config(before + from + after) == before + to + after
        }),
{
    let device = "#device = \"orbic\""@;
    let pixel = "device = \"pixel9\""@;
    let store = "qmdl_store_path = \"/data/rayhunter/qmdl\""@;
    let moved = "qmdl_store_path = \""@ + RAYHUNTER_DATA_DIR@ + "/qmdl\""@;
    reveal_strlit("#device = \"orbic\"");
    reveal_strlit("qmdl_store_path = \"/data/rayhunter/qmdl\"");
    if (forall|k: int|
        0 <= k < before.len() ==> #[trigger] (before + device + after).subrange(
            k,
            k + device.len(),
        ) != device) && !contains(after, device) && !contains(before + pixel + after, store) {
        law_replace_first(before, device, after, pixel);
        law_replace_nothing(after, device, pixel);
        law_replace_nothing(before + pixel + after, store, moved);
    }
    if (forall|k: int|
        0 <= k < before.len() ==> #[trigger] (before + store + after).subrange(
            k,
            k + store.len(),
        ) != store) && !contains(after, store) && !contains(before + store + after, device) {
        law_replace_nothing(before + store + after, device, pixel);
        law_replace_first(before, store, after, moved);
        law_replace_nothing(after, store, moved);
    }
}

} // verus!
