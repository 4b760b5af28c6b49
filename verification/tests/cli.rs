use albert::cli::{help_text, parse_args, CliError, Command};

fn argv(words: &[&str]) -> Vec<String> {
    words.iter().map(|w| w.to_string()).collect()
}

#[test]
fn defaults_to_help_without_command() {
    let args = parse_args(Vec::<String>::new()).unwrap();
    assert_eq!(args.command, Command::Help);
}

#[test]
fn parses_serve_with_flags() {
    let args = parse_args(argv(&[
        "serve",
        "--db",
        "/tmp/albert.db",
        "--port",
        "8080",
        "--no-cors",
        "--default-latency-ms",
        "50",
        "--error-rate=0.25",
        "--collection",
        "api",
    ]))
    .unwrap();
    assert_eq!(args.command, Command::Serve);
    assert_eq!(args.database_url, "/tmp/albert.db");
    assert_eq!(args.port, 8080);
    assert!(!args.cors);
    assert_eq!(args.default_latency_ms, Some(50));
    let rate: f32 = args.error_rate.as_deref().unwrap().parse::<f32>().unwrap().clamp(0.0, 1.0);
    assert!((rate - 0.25).abs() < 1e-4);
    assert_eq!(args.collections, vec!["api".to_string()]);
}

#[test]
fn parses_import_with_positional_files() {
    let args = parse_args(argv(&["import", "--db", "db.sqlite", "a.json", "b.yaml"])).unwrap();
    assert_eq!(args.command, Command::Import);
    assert_eq!(args.import_paths.len(), 2);
}

#[test]
fn rejects_unknown_flag() {
    let err = parse_args(argv(&["serve", "--cosmic"])).unwrap_err();
    assert!(matches!(err, CliError::UnknownFlag(_)));
}

#[test]
fn flag_errors_carry_their_messages() {
    let err = parse_args(argv(&["serve", "--port"])).unwrap_err();
    assert_eq!(err.message(), "flag --port requires a value");
    let err = parse_args(argv(&["serve", "--port", "70000"])).unwrap_err();
    assert_eq!(err.message(), "could not parse --port=70000: number too large to fit in target type");
    let err = parse_args(argv(&["serve", "--port", "8o"])).unwrap_err();
    assert_eq!(err.message(), "could not parse --port=8o: invalid digit found in string");
    let err = parse_args(argv(&["serve", "--error-rate", "lots"])).unwrap_err();
    assert_eq!(err.message(), "could not parse --error-rate=lots: invalid float literal");
    let err = parse_args(argv(&["launch"])).unwrap_err();
    assert_eq!(err.message(), "unknown command: launch");
    let err = parse_args(argv(&["list", "stray"])).unwrap_err();
    assert_eq!(err.message(), "unknown flag: stray");
}

#[test]
fn zero_latency_means_none_and_interval_has_a_floor() {
    let args = parse_args(argv(&["watch", "spec.json", "--default-latency-ms=0", "--interval-ms", "5"])).unwrap();
    assert_eq!(args.default_latency_ms, None);
    assert_eq!(args.watch_interval_ms, Some(100));
    assert_eq!(args.import_paths, vec!["spec.json".to_string()]);
    let args = parse_args(argv(&["serve", "--version"])).unwrap();
    assert_eq!(args.command, Command::Version);
}

#[test]
fn help_lists_every_command() {
    let text = help_text();
    assert!(text.starts_with("Albert CLI — headless mock gateway driver\n\nUSAGE:\n"));
    for word in ["serve", "import", "watch", "list", "export-all", "delete", "rename", "doctor", "version"] {
        assert!(text.contains(word));
    }
    assert!(text.ends_with("    --output <path>          File to write (default: stdout)\n"));
}
