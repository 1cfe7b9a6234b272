use quant_lab_engine::{BenchCommand, BenchConfig, parse_config};

fn args(list: &[&str]) -> Vec<String> {
    list.iter().map(|s| s.to_string()).collect()
}

fn run(list: &[&str]) -> BenchConfig {
    match parse_config(&args(list)) {
        Ok(BenchCommand::Run(config)) => config,
        other => panic!("expected a run, got {other:?}"),
    }
}

#[test]
fn bench_defaults_without_flags() {
    let config = run(&[]);
    assert_eq!((config.len, config.window, config.repeat), (200_000, 252, 20));
    assert_eq!(config.output, None);
    let default = BenchConfig::default();
    assert_eq!((default.len, default.window, default.repeat), (200_000, 252, 20));
}

#[test]
fn bench_reads_each_flag() {
    let config = run(&["--len", "1000000", "--window", "+63", "--repeat", "10", "--output", "target/report.md"]);
    assert_eq!((config.len, config.window, config.repeat), (1_000_000, 63, 10));
    assert_eq!(config.output.as_deref(), Some("target/report.md"));
    assert_eq!(run(&["--len", "5", "--len", "7"]).len, 7);
}

#[test]
fn bench_help_wins_wherever_it_comes() {
    assert!(matches!(parse_config(&args(&["--help"])), Ok(BenchCommand::Help)));
    assert!(matches!(parse_config(&args(&["--len", "3", "-h", "--bogus"])), Ok(BenchCommand::Help)));
}

#[test]
fn bench_refuses_bad_command_lines() {
    assert_eq!(parse_config(&args(&["--len"])).unwrap_err(), "missing value after `--len`");
    assert_eq!(parse_config(&args(&["--bogus"])).unwrap_err(), "missing value after `--bogus`");
    assert_eq!(parse_config(&args(&["--bogus", "1"])).unwrap_err(), "unknown flag `--bogus`");
    assert_eq!(parse_config(&args(&["--len", "ten"])).unwrap_err(), "invalid --len value `ten`");
    assert_eq!(parse_config(&args(&["--window", "-1"])).unwrap_err(), "invalid --window value `-1`");
    assert_eq!(parse_config(&args(&["--repeat", ""])).unwrap_err(), "invalid --repeat value ``");
    assert_eq!(parse_config(&args(&["--output", "  "])).unwrap_err(), "--output must not be empty");
    assert_eq!(
        parse_config(&args(&["--len", "99999999999999999999999"])).unwrap_err(),
        "invalid --len value `99999999999999999999999`"
    );
}

#[test]
fn bench_refuses_zero_settings() {
    assert_eq!(parse_config(&args(&["--len", "0"])).unwrap_err(), "--len must be greater than zero");
    assert_eq!(parse_config(&args(&["--window", "0"])).unwrap_err(), "--window must be greater than zero");
    assert_eq!(parse_config(&args(&["--repeat", "00"])).unwrap_err(), "--repeat must be greater than zero");
}
