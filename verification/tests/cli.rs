use roxy_can::cli::{parse_args, usage, Cli, CliOpts};
use roxy_can::cli_report::{
    check_convert, check_scripts, check_timeline, convert_report, kvaser_probe, open_scan, run_lap,
    vector_channels_report, ListedChannel, OpenOutcome, ScriptOutcome, StopReason, VectorChannel,
};

fn flag_set(args: &[&str]) -> Vec<String> {
    args.iter().map(|s| s.to_string()).collect()
}

/// The command line with what each word reads as, should it be asked for a number.
fn parsed(args: &[&str]) -> Result<Cli, String> {
    let words = flag_set(args);
    let numbers: Vec<Option<u64>> =
        words.iter().map(|w| w.parse::<f64>().ok().map(|v| v.to_bits())).collect();
    parse_args(&words, &numbers)
}

fn run_opts(cli: Cli) -> CliOpts {
    match cli {
        Cli::Run(o) => o,
        _ => panic!("expected a run"),
    }
}

#[test]
fn no_arguments_open_the_window() {
    assert!(matches!(parsed(&[]).unwrap(), Cli::Gui));
}

#[test]
fn help_wins_over_the_rest_of_the_line() {
    for form in ["-h", "--help"] {
        let cli = parsed(&[form, "--nonsense"]).unwrap();
        let Cli::Help(text) = cli else {
            panic!("expected help for {}", form);
        };
        assert!(text.contains("--replay"), "{}", text);
        assert_eq!(text, usage());
    }
}

#[test]
fn a_full_flag_set_parses() {
    let cli = parsed(&[
        "--replay", "run.asc", "--speed", "2.5", "--duration", "10", "--stats", "out.csv",
    ])
    .unwrap();
    let o = run_opts(cli);
    assert_eq!(o.replay.as_deref(), Some("run.asc"));
    assert_eq!(f64::from_bits(o.speed), 2.5);
    assert_eq!(o.duration_s.map(f64::from_bits), Some(10.0));
    assert_eq!(o.stats_csv.as_deref(), Some("out.csv"));
}

#[test]
fn defaults_apply_when_flags_are_absent() {
    let o = run_opts(parsed(&["--replay", "x.blf"]).unwrap());
    assert_eq!(f64::from_bits(o.speed), 1.0);
    assert_eq!(o.duration_s, None);
    assert_eq!(o.stats_csv, None);
}

#[test]
fn usage_errors_name_their_flag() {
    let cases: &[(&[&str], &str)] = &[
        (&["--nonsense"], "unknown flag `--nonsense`"),
        (&["--replay"], "--replay needs a value"),
        (&["--speed"], "--speed needs a value"),
        (&["--speed", "abc"], "--speed wants a number"),
        (&["--speed", "0"], "--speed must be a positive number"),
        (&["--duration", "-1"], "--duration must be a positive"),
        (&["--replay", "a.asc", "--nope"], "unknown flag `--nope`"),
        (&["--replay", "a.asc", "--speed", "0"], "--speed must be a positive number"),
        (&["--speed", "2"], "--replay"),
        (&["--check-script", "a.capl", "--replay", "a.asc"], "drop `--replay`"),
        (&["--replay", "a.asc", "--profile", "ci"], "--profile` overlays a `--project`"),
    ];
    for (args, needle) in cases {
        let err = match parsed(args) {
            Err(e) => e,
            Ok(_) => panic!("{:?} should be refused", args),
        };
        assert!(err.contains(needle), "`{}` should mention `{}`", err, needle);
    }
}

#[test]
fn the_profile_flag_travels_with_the_project() {
    let o = run_opts(
        parsed(&["--project", "net.rxproj", "--duration", "5", "--profile", "ci"]).unwrap(),
    );
    assert_eq!(o.profile.as_deref(), Some("ci"));
    assert_eq!(o.project.as_deref(), Some("net.rxproj"));
}

#[test]
fn check_script_flags_collect_files() {
    match parsed(&["--check-script", "a.capl"]).unwrap() {
        Cli::CheckScripts(c) => assert_eq!(c.scripts, ["a.capl"]),
        _ => panic!("expected CheckScripts"),
    }
    match parsed(&["--check-script", "a.capl", "--check-script", "b.capl"]).unwrap() {
        Cli::CheckScripts(c) => assert_eq!(c.scripts, ["a.capl", "b.capl"]),
        _ => panic!("expected CheckScripts"),
    }
}

#[test]
fn a_project_needs_a_duration_and_refuses_a_log() {
    assert!(parsed(&["--project", "net.rxproj"]).is_err());
    assert!(parsed(&["--project", "net.rxproj", "--duration", "1", "--replay", "a.asc"]).is_err());
}

#[test]
fn convert_and_probe_flags_parse() {
    match parsed(&["--convert", "a.blf", "b.asc"]).unwrap() {
        Cli::Convert(a, b) => assert_eq!((a.as_str(), b.as_str()), ("a.blf", "b.asc")),
        _ => panic!("expected Convert"),
    }
    assert!(matches!(parsed(&["--kvaser-probe"]).unwrap(), Cli::KvaserProbe));
}

#[test]
fn converting_a_log_onto_itself_is_refused() {
    let a = Some("C:/x/a.asc".to_string());
    let b = Some("C:/x/b.asc".to_string());
    assert!(check_convert(&a, &a).is_err());
    assert!(check_convert(&a, &b).is_ok());
    assert!(check_convert(&None, &b).is_ok());
    let text = convert_report(3, "a.blf", "b.asc");
    assert!(text.contains('3') && text.contains("b.asc"), "{}", text);
}

#[test]
fn one_broken_script_fails_the_whole_check() {
    let bad = ScriptOutcome { path: "a.capl".to_string(), result: Err("line 3: oops".to_string()) };
    let err = check_scripts(&vec![bad]).unwrap_err();
    assert!(err.contains("a.capl") && err.contains("line 3: oops"), "{}", err);
    assert!(check_scripts(&Vec::new()).is_ok());
}

#[test]
fn probe_reports_list_their_channels() {
    let found = vec![ListedChannel { index: 0, name: "Leaf Light".to_string() }];
    let text = kvaser_probe(Ok(found)).unwrap();
    assert!(text.starts_with("1 Kvaser channel(s):\n"), "{}", text);
    assert!(text.contains("Leaf Light"));
    assert_eq!(kvaser_probe(Err("no driver".to_string())), Err("no driver".to_string()));

    let channels = vec![
        VectorChannel {
            index: 0,
            name: "VN7640 1".to_string(),
            bus_caps: 0x1000_0004,
            can: false,
            flexray: true,
        },
        VectorChannel {
            index: 1,
            name: "VN7640 2".to_string(),
            bus_caps: 1,
            can: true,
            flexray: false,
        },
    ];
    assert_eq!(
        vector_channels_report(&channels),
        "2 Vector channel(s):\n  ch0: VN7640 1 [caps=0x10000004 can:false flexray:true]\n  ch1: VN7640 2 [caps=0x00000001 can:true flexray:false]\n"
    );
    let outcomes = vec![OpenOutcome::Opened(Some(4)), OpenOutcome::Failed("no FlexRay".to_string())];
    let (text, usable) = open_scan(&channels, &outcomes, 4, false);
    assert_eq!(usable, vec![0]);
    assert!(text.contains("  ch0: open OK, status=0x00000004 VALID_CLUSTER_CFG\n"), "{}", text);
    assert!(text.contains("  ch1: no FlexRay\n"), "{}", text);
}

#[test]
fn a_run_stops_at_its_first_reason() {
    assert_eq!(StopReason::EndOfLog.label(), "end of log");
    assert_eq!(StopReason::DurationLimit.label(), "duration limit");
    let (_, stop) = run_lap(false, true, None, true);
    assert!(stop.is_some());
    let (saw, stop) = run_lap(false, true, Some((1, 10)), false);
    assert!(saw);
    assert!(stop.is_none());
    assert!(check_timeline(true, false).is_err());
    assert!(check_timeline(true, true).is_ok());
    assert!(check_timeline(false, false).is_ok());
}
