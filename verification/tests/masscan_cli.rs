use hermes::masscan_cli::{
    MasscanCommand, MasscanError, NonEmptyList, NonZeroU16, NonZeroU64, PortSelection, PortSpec,
    ProcessOutput, TargetSpec,
};

fn port(n: u16) -> NonZeroU16 {
    NonZeroU16::new(n).unwrap()
}

fn strings(args: &[String]) -> Vec<&str> {
    args.iter().map(|s| s.as_str()).collect()
}

#[test]
fn nonzero_port_refuses_zero() {
    assert!(NonZeroU16::new(0).is_none());
    assert_eq!(NonZeroU16::new(443).unwrap().get(), 443);
    assert!(NonZeroU64::new(0).is_none());
    assert_eq!(NonZeroU64::new(2000).unwrap().get(), 2000);
}

#[test]
fn non_empty_list_keeps_order() {
    let list = NonEmptyList::new(1).push(2).push(3);
    assert_eq!(*list.first(), 1);
    assert_eq!(list.rest(), &vec![2, 3]);
}

#[test]
fn target_spec_refuses_blank_text() {
    assert!(matches!(TargetSpec::new(""), Err(MasscanError::EmptyValue("target"))));
    assert!(matches!(TargetSpec::new(" \t\n"), Err(MasscanError::EmptyValue("target"))));
    assert!(matches!(TargetSpec::new("\u{3000}"), Err(MasscanError::EmptyValue("target"))));
    assert_eq!(TargetSpec::new(" 10.0.0.0/8 ").unwrap().as_str(), " 10.0.0.0/8 ");
}

#[test]
fn port_range_refuses_backwards_bounds() {
    match PortSpec::range(port(90), port(80)) {
        Err(MasscanError::InvalidPortRange { start, end }) => {
            assert_eq!((start, end), (90, 80));
        }
        other => panic!("unexpected {other:?}"),
    }
    assert!(PortSpec::range(port(80), port(80)).is_ok());
}

#[test]
fn port_fragments_are_written_in_decimal() {
    assert_eq!(PortSpec::single(port(22)).as_cli_fragment(), "22");
    assert_eq!(PortSpec::range(port(1), port(1024)).unwrap().as_cli_fragment(), "1-1024");
}

#[test]
fn port_selection_joins_fragments_with_commas() {
    let selection = PortSelection::new(PortSpec::single(port(80)))
        .push(PortSpec::range(port(8000), port(8100)).unwrap())
        .push(PortSpec::single(port(65535)));
    assert_eq!(selection.as_cli_value(), "80,8000-8100,65535");
    assert_eq!(PortSelection::new(PortSpec::single(port(7))).as_cli_value(), "7");
}

#[test]
fn new_command_names_the_program() {
    let command = MasscanCommand::new();
    assert_eq!(strings(command.args()), vec!["masscan"]);
    assert_eq!(command.program(), "masscan");
    let default: MasscanCommand<_> = Default::default();
    assert_eq!(strings(default.args()), vec!["masscan"]);
}

#[test]
fn scan_lists_ports_then_targets() {
    let targets = NonEmptyList::new(TargetSpec::new("10.0.0.1").unwrap())
        .push(TargetSpec::new("192.168.0.0/24").unwrap());
    let ports = PortSelection::new(PortSpec::single(port(443)))
        .push(PortSpec::range(port(20), port(22)).unwrap());
    let command = MasscanCommand::scan(targets, ports);
    assert_eq!(
        strings(command.args()),
        vec!["masscan", "--ports", "443,20-22", "10.0.0.1", "192.168.0.0/24"]
    );
}

#[test]
fn options_are_appended_in_order() {
    let targets = NonEmptyList::new(TargetSpec::new("10.0.0.1").unwrap());
    let ports = PortSelection::new(PortSpec::single(port(80)));
    let command = MasscanCommand::scan(targets, ports)
        .rate(NonZeroU64::new(2000).unwrap())
        .max_retries(1)
        .wait(0)
        .output_ndjson("results.ndjson")
        .unwrap()
        .flag("--banners")
        .arg("--open-only")
        .option("--source-port", "61000");
    assert_eq!(
        strings(command.args()),
        vec![
            "masscan",
            "--ports",
            "80",
            "10.0.0.1",
            "--rate",
            "2000",
            "--max-retries",
            "1",
            "--wait",
            "0",
            "-oD",
            "results.ndjson",
            "--banners",
            "--open-only",
            "--source-port",
            "61000",
        ]
    );
}

#[test]
fn output_path_must_not_be_blank() {
    let result = MasscanCommand::new().output_ndjson("   ");
    assert!(matches!(result, Err(MasscanError::EmptyValue("output path"))));
}

#[test]
fn readscan_reads_a_saved_scan() {
    let command = MasscanCommand::readscan("scan.bin").unwrap();
    assert_eq!(strings(command.args()), vec!["masscan", "--readscan", "scan.bin"]);
    assert!(matches!(
        MasscanCommand::readscan(""),
        Err(MasscanError::EmptyValue("readscan path"))
    ));
}

#[test]
fn invoke_reports_exit_codes() {
    let command = MasscanCommand::readscan("scan.bin").unwrap();
    let mut seen = Vec::new();
    let result = command.invoke(|argv: &Vec<String>| {
        seen = argv.clone();
        0
    });
    assert!(result.is_ok());
    assert_eq!(strings(&seen), vec!["masscan", "--readscan", "scan.bin"]);
    let failed = command.invoke(|_argv: &Vec<String>| 1);
    assert!(matches!(failed, Err(MasscanError::NonZeroExit(1))));
}

#[test]
fn invoke_refuses_arguments_with_nul() {
    let targets = NonEmptyList::new(TargetSpec::new("10.0.0.1").unwrap());
    let ports = PortSelection::new(PortSpec::single(port(80)));
    let command = MasscanCommand::scan(targets, ports).arg("bad\0arg").arg("worse\0");
    let mut called = false;
    let result = command.invoke(|_argv: &Vec<String>| {
        called = true;
        0
    });
    assert!(!called);
    match result {
        Err(MasscanError::ArgumentContainsNul(arg)) => assert_eq!(arg, "bad\0arg"),
        other => panic!("unexpected {other:?}"),
    }
}

#[test]
fn subprocess_outcomes() {
    let command = MasscanCommand::readscan("scan.bin").unwrap();
    let ok = command.invoke_subprocess_capture_stdout(|program: &str, argv: &Vec<String>| {
        assert_eq!(program, "masscan");
        assert_eq!(argv.len(), 3);
        Ok(ProcessOutput { success: true, code: Some(0), stdout: Ok("out".to_string()) })
    });
    assert_eq!(ok.unwrap(), "out");
    let spawn = command.invoke_subprocess_capture_stdout(|_p: &str, _a: &Vec<String>| {
        Err("no such file".to_string())
    });
    assert!(matches!(spawn, Err(MasscanError::SpawnFailed(m)) if m == "no such file"));
    let killed = command.invoke_subprocess_capture_stdout(|_p: &str, _a: &Vec<String>| {
        Ok(ProcessOutput { success: false, code: None, stdout: Ok(String::new()) })
    });
    assert!(matches!(killed, Err(MasscanError::NonZeroExit(-1))));
    let failed = command.invoke_subprocess_capture_stdout(|_p: &str, _a: &Vec<String>| {
        Ok(ProcessOutput { success: false, code: Some(2), stdout: Err("bad".to_string()) })
    });
    assert!(matches!(failed, Err(MasscanError::NonZeroExit(2))));
    let garbled = command.invoke_subprocess_capture_stdout(|_p: &str, _a: &Vec<String>| {
        Ok(ProcessOutput { success: true, code: Some(0), stdout: Err("bad bytes".to_string()) })
    });
    assert!(matches!(garbled, Err(MasscanError::InvalidUtf8Output(m)) if m == "bad bytes"));
}

#[test]
fn error_messages() {
    assert_eq!(MasscanError::EmptyValue("target").message(), "target must not be empty");
    assert_eq!(
        MasscanError::InvalidPortRange { start: 90, end: 80 }.message(),
        "invalid port range 90-80: start must be <= end"
    );
    assert_eq!(
        MasscanError::ArgumentContainsNul("a\0b".to_string()).message(),
        "argument contains NUL byte: a\0b"
    );
    assert_eq!(
        MasscanError::NonZeroExit(-13).message(),
        "masscan returned non-zero exit code: -13. If this is a permission error, retry under sudo"
    );
    assert_eq!(
        MasscanError::NonZeroExit(i32::MIN).message(),
        "masscan returned non-zero exit code: -2147483648. If this is a permission error, retry under sudo"
    );
    assert_eq!(
        MasscanError::SpawnFailed("denied".to_string()).message(),
        "failed to spawn masscan subprocess: denied"
    );
    assert_eq!(
        MasscanError::InvalidUtf8Output("oops".to_string()).message(),
        "masscan produced non-UTF8 stdout: oops"
    );
}
