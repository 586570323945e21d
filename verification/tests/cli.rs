use rank_wav_rs::cli::{Cli, CliError, SortMode};

#[test]
fn test_cli_defaults() {
    let cli = Cli::parse_from(&["rank-wav", "."]);
    assert!(!cli.recursive);
    assert!(matches!(cli.sort, SortMode::Pleasing));
    assert!(!cli.json);
}

#[test]
fn test_cli_with_flags() {
    let cli = Cli::parse_from(&["rank-wav", "./wavs", "-r", "--sort", "best", "--json"]);
    assert!(cli.recursive);
    assert!(matches!(cli.sort, SortMode::Best));
    assert!(cli.json);
}

#[test]
fn cli_defaults_fill_every_field() {
    let cli = Cli::try_parse_from(&["rank-wav", "samples"]).unwrap();
    assert_eq!(cli.dir, "samples");
    assert!(!cli.extended);
    assert_eq!(cli.config, "config.toml");
    assert_eq!(cli.sort, SortMode::Pleasing);
}

#[test]
fn cli_combined_options() {
    let cli =
        Cli::try_parse_from(&["rank-wav", "./samples", "-r", "-e", "--sort", "best", "--json"])
            .unwrap();
    assert_eq!(cli.dir, "./samples");
    assert!(cli.recursive && cli.extended && cli.json);
    assert_eq!(cli.sort, SortMode::Best);
    assert_eq!(cli.config, "config.toml");
}

#[test]
fn cli_short_cluster_and_attached_values() {
    let cli = Cli::try_parse_from(&["rank-wav", "-re", "-sbest", "-ccustom.toml", "d"]).unwrap();
    assert!(cli.recursive && cli.extended);
    assert_eq!(cli.sort, SortMode::Best);
    assert_eq!(cli.config, "custom.toml");
    assert_eq!(cli.dir, "d");

    let cli = Cli::try_parse_from(&["rank-wav", "-s=best", "-c=x.toml", "d"]).unwrap();
    assert_eq!(cli.sort, SortMode::Best);
    assert_eq!(cli.config, "x.toml");

    let cli = Cli::try_parse_from(&["rank-wav", "-rs", "pleasing", "d"]).unwrap();
    assert!(cli.recursive);
    assert_eq!(cli.sort, SortMode::Pleasing);
}

#[test]
fn cli_long_values_with_equals() {
    let cli = Cli::try_parse_from(&["rank-wav", "--sort=best", "--config=a=b.toml", "d"]).unwrap();
    assert_eq!(cli.sort, SortMode::Best);
    assert_eq!(cli.config, "a=b.toml");
    let cli = Cli::try_parse_from(&["rank-wav", "d", "-c", "custom-config.toml"]).unwrap();
    assert_eq!(cli.config, "custom-config.toml");
    assert_eq!(cli.dir, "d");
}

#[test]
fn cli_escape_makes_positional() {
    let cli = Cli::try_parse_from(&["rank-wav", "--", "-r"]).unwrap();
    assert_eq!(cli.dir, "-r");
    assert!(!cli.recursive);
    let cli = Cli::try_parse_from(&["rank-wav", "-"]).unwrap();
    assert_eq!(cli.dir, "-");
    let cli = Cli::try_parse_from(&["rank-wav", "--sort", "-", "d"]);
    assert_eq!(cli.unwrap_err(), CliError::InvalidValue);
}

#[test]
fn cli_help_and_version() {
    assert_eq!(Cli::try_parse_from(&["rank-wav", "--help"]).unwrap_err(), CliError::DisplayHelp);
    assert_eq!(Cli::try_parse_from(&["rank-wav", "-h", "x", "y"]).unwrap_err(), CliError::DisplayHelp);
    assert_eq!(Cli::try_parse_from(&["rank-wav", "d", "-V"]).unwrap_err(), CliError::DisplayVersion);
    assert_eq!(
        Cli::try_parse_from(&["rank-wav", "--version"]).unwrap_err(),
        CliError::DisplayVersion
    );
    assert_eq!(Cli::try_parse_from(&["rank-wav", "--help=1"]).unwrap_err(), CliError::UnexpectedValue);
}

#[test]
fn cli_errors() {
    let err = |args: &[&str]| Cli::try_parse_from(args).unwrap_err();
    assert_eq!(err(&["rank-wav"]), CliError::MissingDirectory);
    assert_eq!(err(&[]), CliError::MissingDirectory);
    assert_eq!(err(&["rank-wav", "-r"]), CliError::MissingDirectory);
    assert_eq!(err(&["rank-wav", "d", "--bogus"]), CliError::UnknownArgument);
    assert_eq!(err(&["rank-wav", "d", "-x"]), CliError::UnknownArgument);
    assert_eq!(err(&["rank-wav", "d", "--json=yes"]), CliError::UnexpectedValue);
    assert_eq!(err(&["rank-wav", "d", "--sort"]), CliError::MissingValue);
    assert_eq!(err(&["rank-wav", "--sort", "--json", "d"]), CliError::MissingValue);
    assert_eq!(err(&["rank-wav", "d", "--sort", "worst"]), CliError::InvalidValue);
    assert_eq!(err(&["rank-wav", "d", "--sort", "Best"]), CliError::InvalidValue);
    assert_eq!(err(&["rank-wav", ""]), CliError::EmptyValue);
    assert_eq!(err(&["rank-wav", "d", "--config="]), CliError::EmptyValue);
    assert_eq!(err(&["rank-wav", "d", "-r", "--recursive"]), CliError::ArgumentConflict);
    assert_eq!(err(&["rank-wav", "d", "--json", "--json"]), CliError::ArgumentConflict);
    assert_eq!(err(&["rank-wav", "--sort", "best", "-s", "best", "d"]), CliError::ArgumentConflict);
    assert_eq!(err(&["rank-wav", "a", "b"]), CliError::UnexpectedPositional);
}

#[test]
fn cli_short_and_long_spellings_agree() {
    let a = Cli::try_parse_from(&["rank-wav", "-r", "-e", "-s", "best", "-c", "k.toml", "d"]).unwrap();
    let b = Cli::try_parse_from(&[
        "rank-wav",
        "--recursive",
        "--extended",
        "--sort=best",
        "--config",
        "k.toml",
        "d",
    ])
    .unwrap();
    assert_eq!(a.dir, b.dir);
    assert_eq!(a.recursive, b.recursive);
    assert_eq!(a.extended, b.extended);
    assert_eq!(a.sort, b.sort);
    assert_eq!(a.config, b.config);
    assert_eq!(a.json, b.json);
}
