use rblog::cli::{version_string, Cli, CliCommand, CliSubcommand, SubcommandRun, SubcommandVersion};

#[test]
fn version_subcommand() {
    let cli = Cli { subcommand: Some(CliSubcommand::Version(SubcommandVersion {})) };
    assert!(matches!(cli.command(), CliCommand::PrintVersion));
}

#[test]
fn run_subcommand_and_default() {
    let cli = Cli {
        subcommand: Some(CliSubcommand::Run(SubcommandRun::new("other.yaml".to_string()))),
    };
    match cli.command() {
        CliCommand::Run { config_file } => assert_eq!(config_file, "other.yaml"),
        other => panic!("{:?}", other),
    }
    match (Cli { subcommand: None }).command() {
        CliCommand::Run { config_file } => assert_eq!(config_file, "blog.yaml"),
        other => panic!("{:?}", other),
    }
}

#[test]
fn version_line() {
    assert_eq!(
        version_string("rblog", "0.1.0", "0123456789abcdef"),
        "rblog 0.1.0-012345678"
    );
}
