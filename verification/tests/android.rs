use rayhunter::android::{
    generate_config, generate_startup_script, install, install_file_as_root,
    install_named_file, not_running,
    product_id_candidates, run_command, start_daemon, uninstall, verify_root_access,
    verify_running, verify_shannon_modem, AndroidArgs, Check, Event, InstallError, Installer,
    Phase, Progress, Step, Verdict, GOOGLE_USB_VENDOR_ID, RAYHUNTER_DATA_DIR,
    RAYHUNTER_SERVICE_SCRIPT,
};

/// The steps of a phase, one line each.
fn lines(phase: &Phase) -> Vec<String> {
    phase
        .steps
        .iter()
        .map(|step| match step {
            Step::Run { command, .. } => command.join("|"),
            Step::Push { contents, path } => format!("push {} to {path}", contents.len()),
            Step::Sleep(secs) => format!("sleep {secs}"),
        })
        .collect()
}

fn passes(check: &Check, output: &str) -> bool {
    matches!(check.verdict(output.as_bytes()), Verdict::Pass)
}

#[test]
fn devices_looked_for() {
    assert_eq!(GOOGLE_USB_VENDOR_ID, 0x18D1);
    assert_eq!(AndroidArgs::default().product_id, None);
    assert_eq!(product_id_candidates(None), vec![0x4EE7, 0x4EE2, 0x4EE5, 0xD001]);
    assert_eq!(
        product_id_candidates(Some(0x1234)),
        vec![0x1234, 0x4EE7, 0x4EE2, 0x4EE5, 0xD001]
    );
}

#[test]
fn the_startup_script() {
    let script = generate_startup_script();
    assert!(script.starts_with("#!/system/bin/sh\n# Rayhunter startup script"));
    assert!(script.contains("\nRAYHUNTER_DIR=\"/data/local/tmp/rayhunter\"\nDAEMON="));
    assert!(script.contains("nohup \"$DAEMON\" --config \"$CONFIG\" > \"$LOG\" 2>&1 &\n"));
    assert!(script.ends_with("echo \"Web interface: http://localhost:8080\"\n"));
    assert!(script.contains("Rayhunter started"));
}

#[test]
fn the_configuration() {
    let usual = "qmdl_store_path = \"/data/rayhunter/qmdl\"\n#device = \"orbic\"\nport = 8080\n";
    assert_eq!(
        generate_config(usual),
        "qmdl_store_path = \"/data/local/tmp/rayhunter/qmdl\"\ndevice = \"pixel9\"\nport = 8080\n"
    );
    assert_eq!(generate_config("port = 8080\n"), "port = 8080\n");
}

#[test]
fn checks_on_root_and_modem() {
    assert!(passes(&Check::Root, "uid=0(root) gid=0(root)"));
    match Check::Root.verdict(b"uid=2000(shell)") {
        Verdict::Fail(error) => assert_eq!(
            error.message(),
            "Root access not available.\n\
             \n\
             Please ensure:\n\
             1. Your device is rooted (Magisk, KernelSU, etc.)\n\
             2. You have granted root access to the shell/ADB\n\
             \n\
             Output from 'su -c id': uid=2000(shell)"
        ),
        other => panic!("{other:?}"),
    }
    assert!(passes(&Check::Modem, "crw-rw---- 1 radio radio /dev/umts_dm0"));
    assert!(passes(&Check::Modem, ""));
    for output in ["ls: No such file or directory", "ls: Permission denied"] {
        match Check::Modem.verdict(output.as_bytes()) {
            Verdict::Fail(error) => {
                assert!(matches!(error, InstallError::NoModem));
                assert!(error
                    .message()
                    .starts_with("Samsung Shannon modem not found at /dev/umts_dm0.\n\nThis"));
            }
            other => panic!("{other:?}"),
        }
    }
}

#[test]
fn checks_on_expected_output() {
    let check = Check::Expect("exit code 0".to_string());
    assert!(passes(&check, "done\nexit code 0\n"));
    match check.verdict(b"exit code 1\xff") {
        Verdict::Fail(error) => assert_eq!(
            error.message(),
            "\"exit code 0\" not found in: exit code 1\u{fffd}"
        ),
        other => panic!("{other:?}"),
    }
    assert!(passes(&Check::Expect(String::new()), "anything"));
    match Check::Expect("a\"b".to_string()).verdict_on_text("no") {
        Verdict::Fail(error) => assert_eq!(error.message(), "\"a\\\"b\" not found in: no"),
        other => panic!("{other:?}"),
    }
}

#[test]
fn checks_on_the_daemon() {
    assert!(passes(&Check::Running, "1234\n"));
    match Check::Running.verdict(b" \n") {
        Verdict::FailWithLog(command) => assert_eq!(
            command,
            vec!["su", "-c", "tail -20 /data/local/tmp/rayhunter/rayhunter.log"]
        ),
        other => panic!("{other:?}"),
    }
    assert_eq!(
        not_running(b"panicked").message(),
        "Rayhunter daemon is not running.\n\nLast log entries:\npanicked"
    );
}

#[test]
fn commands_print_their_exit_code() {
    match run_command(vec!["ls".to_string(), "/".to_string()], "ok") {
        Step::Run { command, check } => {
            assert_eq!(command, vec!["ls", "/", ";", "echo", "exit code $?"]);
            assert!(matches!(check, Check::Expect(text) if text == "ok"));
        }
        other => panic!("{other:?}"),
    }
}

#[test]
fn a_file_is_checked_before_it_is_moved() {
    let phase = install_file_as_root("/data/x/notes.txt", b"rayhunter").unwrap();
    assert_eq!(phase.title, "Sending file /data/x/notes.txt ... ");
    assert_eq!(
        lines(&phase),
        vec![
            "push 9 to /data/local/tmp/notes.txt",
            "md5sum|/data/local/tmp/notes.txt",
            "su|-c|mv /data/local/tmp/notes.txt /data/x/notes.txt|;|echo|exit code $?",
        ]
    );
    let hash = format!("{:x}  /data/local/tmp/notes.txt", md5::compute(b"rayhunter"));
    assert!(matches!(phase.steps[1].verdict(hash.as_bytes()), Verdict::Pass));
    match phase.steps[1].verdict(b"00000000000000000000000000000000  notes.txt") {
        Verdict::Fail(error) => {
            assert!(matches!(error, InstallError::HashMismatch));
            assert_eq!(error.message(), "File hash mismatch after transfer");
        }
        other => panic!("{other:?}"),
    }
    assert!(matches!(phase.steps[0].verdict(b""), Verdict::Pass));
}

#[test]
fn scripts_and_daemons_become_executable() {
    for dest in ["/data/start.sh", "/data/my-daemon"] {
        let phase = install_file_as_root(dest, b"").unwrap();
        assert_eq!(phase.steps.len(), 4);
        assert_eq!(
            lines(&phase)[3],
            format!("su|-c|chmod 755 {dest}|;|echo|exit code $?")
        );
    }
    assert_eq!(install_file_as_root("/data/config.toml", b"").unwrap().steps.len(), 3);
}

#[test]
fn a_destination_without_a_name() {
    match install_file_as_root("/data/..", b"") {
        Err(error) => assert_eq!(error.message(), "/data/.. does not have a file name"),
        Ok(phase) => panic!("{phase:?}"),
    }
    assert!(InstallError::NoDevice
        .message()
        .starts_with("No Android device found.\n\nPlease ensure:\n1. USB debugging"));
}

#[test]
fn an_installation_step_by_step() {
    let plan = install(b"daemon bytes", "#device = \"orbic\"");
    let all: Vec<Vec<String>> = plan.iter().map(lines).collect();
    assert_eq!(all[0], vec!["su|-c|id"]);
    assert_eq!(all[1], vec!["su|-c|ls -la /dev/umts_dm0"]);
    assert_eq!(
        all[2],
        vec!["su|-c|mkdir -p /data/local/tmp/rayhunter|;|echo|exit code $?"]
    );
    assert_eq!(all[3][0], "push 12 to /data/local/tmp/rayhunter-daemon");
    assert_eq!(
        all[3][2],
        format!("su|-c|mv /data/local/tmp/rayhunter-daemon {RAYHUNTER_DATA_DIR}/rayhunter-daemon|;|echo|exit code $?")
    );
    assert_eq!(all[3].len(), 4);
    assert_eq!(all[4].len(), 3);
    match &plan[4].steps[0] {
        Step::Push { contents, path } => {
            assert_eq!(contents, b"device = \"pixel9\"");
            assert_eq!(path, "/data/local/tmp/config.toml");
        }
        other => panic!("{other:?}"),
    }
    match &plan[5].steps[0] {
        Step::Push { contents, .. } => {
            assert_eq!(contents, &generate_startup_script().into_bytes())
        }
        other => panic!("{other:?}"),
    }
    assert_eq!(
        all[6],
        vec![format!("su|-c|chmod 755 {RAYHUNTER_SERVICE_SCRIPT}|;|echo|exit code $?")]
    );
    assert_eq!(
        all[7],
        vec![format!("su|-c|{RAYHUNTER_SERVICE_SCRIPT}|;|echo|exit code $?")]
    );
    assert_eq!(plan[7].context, "Failed to start rayhunter daemon");
    assert_eq!(all[8], vec!["sleep 3"]);
    assert_eq!(all[9], vec!["su|-c|pgrep -f rayhunter-daemon"]);
    assert_eq!(plan.len(), 10);
    assert!(plan.iter().all(|phase| !phase.ignore_failure));
    let titles: Vec<&str> = plan.iter().map(|phase| phase.title.as_str()).collect();
    assert_eq!(
        titles,
        vec![
            "Checking root access ... ",
            "Checking for Samsung Shannon modem ... ",
            "Creating data directory ... ",
            "Sending file /data/local/tmp/rayhunter/rayhunter-daemon ... ",
            "Sending file /data/local/tmp/rayhunter/config.toml ... ",
            "Sending file /data/local/tmp/rayhunter/start-rayhunter.sh ... ",
            "",
            "Starting rayhunter daemon ... ",
            "",
            "Verifying rayhunter is running ... ",
        ]
    );
}

#[test]
fn an_uninstallation_step_by_step() {
    let plan = uninstall();
    assert_eq!(plan.len(), 2);
    assert!(plan[0].ignore_failure);
    assert!(!plan[1].ignore_failure);
    assert_eq!(
        lines(&plan[0]),
        vec!["su|-c|pkill -f rayhunter-daemon|;|echo|exit code $?"]
    );
    assert_eq!(
        lines(&plan[1]),
        vec!["su|-c|rm -rf /data/local/tmp/rayhunter|;|echo|exit code $?"]
    );
}

/// What a device that does as it is told answers to a step.
fn good_answer(step: &Step) -> Vec<u8> {
    match step {
        Step::Run { check, .. } => match check {
            Check::Root => b"uid=0(root)".to_vec(),
            Check::Modem => b"crw------- /dev/umts_dm0".to_vec(),
            Check::Expect(text) => text.clone().into_bytes(),
            Check::Digest(digest) => format!("{digest}  file").into_bytes(),
            Check::Running => b"4711".to_vec(),
        },
        _ => Vec::new(),
    }
}

#[test]
fn an_installation_that_goes_well() {
    let mut installer = Installer::of_install(b"daemon", "config");
    let mut done = Vec::new();
    let mut phases = 0;
    while let Some(step) = installer.current() {
        let answer = good_answer(step);
        done.push(format!("{step:?}"));
        match installer.advance(Event::Output(answer)) {
            Progress::StepDone => {}
            Progress::PhaseDone => phases += 1,
            other => panic!("{other:?}"),
        }
    }
    let planned: Vec<String> = install(b"daemon", "config")
        .iter()
        .flat_map(|phase| phase.steps.iter().map(|step| format!("{step:?}")))
        .collect();
    assert_eq!(done, planned);
    assert_eq!(phases, 10);
    assert!(!installer.stopped);
    assert!(installer.current_phase().is_none());
}

#[test]
fn an_installation_stops_where_it_fails() {
    let steps: usize = install(b"daemon", "config").iter().map(|phase| phase.steps.len()).sum();
    for failing in 0..steps {
        let mut installer = Installer::of_install(b"daemon", "config");
        for _ in 0..failing {
            let answer = good_answer(installer.current().unwrap());
            installer.advance(Event::Output(answer));
        }
        assert!(matches!(installer.advance(Event::Broken), Progress::Broken));
        assert!(installer.stopped);
        assert!(installer.current().is_none());
    }
}

#[test]
fn a_file_that_arrives_broken_is_not_moved() {
    let mut installer = Installer::of_install(b"daemon", "config");
    while installer.phase < 3 {
        let answer = good_answer(installer.current().unwrap());
        installer.advance(Event::Output(answer));
    }
    assert!(matches!(installer.advance(Event::Output(Vec::new())), Progress::StepDone));
    match installer.advance(Event::Output(b"0123  rayhunter-daemon".to_vec())) {
        Progress::Failed(error) => assert!(matches!(error, InstallError::HashMismatch)),
        other => panic!("{other:?}"),
    }
    assert!(installer.current().is_none());
}

#[test]
fn a_daemon_that_does_not_run() {
    let mut installer = Installer::of_install(b"daemon", "config");
    while installer.phase < 9 {
        let answer = good_answer(installer.current().unwrap());
        installer.advance(Event::Output(answer));
    }
    match installer.advance(Event::Output(b"\n".to_vec())) {
        Progress::FailedWithLog(command) => assert_eq!(command[0], "su"),
        other => panic!("{other:?}"),
    }
}

#[test]
fn an_uninstallation_does_not_need_a_running_daemon() {
    let mut installer = Installer::of_uninstall();
    assert!(matches!(installer.advance(Event::Broken), Progress::PhaseDone));
    match installer.advance(Event::Output(b"exit code 1".to_vec())) {
        Progress::Failed(error) => assert_eq!(
            error.message(),
            "\"exit code 0\" not found in: exit code 1"
        ),
        other => panic!("{other:?}"),
    }
    assert!(installer.current().is_none());
}

#[test]
fn single_phases() {
    assert_eq!(lines(&verify_root_access()), vec!["su|-c|id"]);
    assert_eq!(lines(&verify_shannon_modem()), vec!["su|-c|ls -la /dev/umts_dm0"]);
    assert_eq!(lines(&verify_running()), vec!["su|-c|pgrep -f rayhunter-daemon"]);
    match &start_daemon().steps[0] {
        Step::Run { check, .. } => {
            assert!(passes(check, "Rayhunter started (PID: 1)"));
            assert!(!passes(check, "Rayhunter is already running (PID: 1)"));
        }
        other => panic!("{other:?}"),
    }
}

#[test]
fn names_found_in_destinations() {
    let sent_to = |dest: &str| match install_file_as_root(dest, b"") {
        Ok(phase) => Some(lines(&phase)[0].clone()),
        Err(_) => None,
    };
    let named = [
        ("/data/x.sh", "x.sh"),
        ("x.sh", "x.sh"),
        ("a/.", "a"),
        ("a//", "a"),
        ("./b/./", "b"),
        ("/data/...", "..."),
        ("\u{e9}/\u{fc}", "\u{fc}"),
    ];
    for (dest, name) in named {
        assert_eq!(sent_to(dest), Some(format!("push 0 to /data/local/tmp/{name}")), "{dest}");
    }
    for dest in ["/", "", ".", "..", "./", "a/.."] {
        assert_eq!(sent_to(dest), None, "{dest}");
    }
    // Where hosts differ, the name is the one that the host finds
    for dest in ["a\\b", "//server/share", "C:", "//server/share/x"] {
        let expected = std::path::Path::new(dest)
            .file_name()
            .map(|name| format!("push 0 to /data/local/tmp/{}", name.to_str().unwrap()));
        assert_eq!(sent_to(dest), expected, "{dest}");
    }
}

#[test]
fn a_file_under_a_given_name() {
    let phase = install_named_file("/data/a.txt", Some("b.txt".to_string()), b"abc").unwrap();
    assert_eq!(phase.title, "Sending file /data/a.txt ... ");
    assert_eq!(
        lines(&phase),
        vec![
            "push 3 to /data/local/tmp/b.txt",
            "md5sum|/data/local/tmp/b.txt",
            "su|-c|mv /data/local/tmp/b.txt /data/a.txt|;|echo|exit code $?",
        ]
    );
    assert!(matches!(
        install_named_file("/data/a.txt", None, b"abc"),
        Err(InstallError::NoFileName(dest)) if dest == "/data/a.txt"
    ));
}
