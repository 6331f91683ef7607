use clap::{Arg, ArgAction, ArgMatches, Command};
use hydroxyl::cli::{resolve, validate, Cli, CliCommand};
use hydroxyl::session::context::{OpenTarget, WorldFileStructure};
use hydroxyl::util::fs::FilePath;

fn command() -> Command {
    let path = || Arg::new("path").value_name("PATH").required(true);
    Command::new("hydroxyl")
        .arg(
            Arg::new("new-file-structure")
                .long("new-file-structure")
                .global(true)
                .action(ArgAction::SetTrue),
        )
        .subcommand(Command::new("world").arg(path()))
        .subcommand(Command::new("player").arg(path()))
        .subcommand(Command::new("nbt").arg(path()))
        .subcommand(Command::new("stats").arg(path()))
        .subcommand(Command::new("advancements").arg(path()))
}

fn cli_from(matches: &ArgMatches) -> Cli {
    let command = matches.subcommand().map(|(name, sub)| {
        let path = FilePath::from_text(sub.get_one::<String>("path").unwrap());
        match name {
            "world" => CliCommand::World { path },
            "player" => CliCommand::Player { path },
            "nbt" => CliCommand::Nbt { path },
            "stats" => CliCommand::Stats { path },
            _ => CliCommand::Advancements { path },
        }
    });
    Cli { new_file_structure: matches.get_flag("new-file-structure"), command }
}

fn parse(args: &[&str]) -> Cli {
    cli_from(&command().try_get_matches_from(args.iter().copied()).unwrap())
}

#[test]
fn resolves_home_when_no_subcommand_is_provided() {
    let cli = Cli { new_file_structure: false, command: None };
    let launch = resolve(&cli).unwrap();
    assert_eq!(launch.target, OpenTarget::Home);
    assert_eq!(launch.world_file_structure, WorldFileStructure::Legacy);
}

#[test]
fn resolves_world_subcommand() {
    let cli = Cli {
        new_file_structure: false,
        command: Some(CliCommand::World { path: FilePath::from_text("world") }),
    };
    let launch = resolve(&cli).unwrap();
    assert_eq!(launch.target, OpenTarget::World(FilePath::from_text("world")));
}

#[test]
fn resolves_new_file_structure_flag() {
    let cli = Cli {
        new_file_structure: true,
        command: Some(CliCommand::World { path: FilePath::from_text("world") }),
    };
    let launch = resolve(&cli).unwrap();
    assert_eq!(launch.world_file_structure, WorldFileStructure::New);
}

#[test]
fn parses_new_file_structure_as_global_flag() {
    let before = parse(&["hc", "--new-file-structure", "world", "world"]);
    let after = parse(&["hc", "world", "--new-file-structure", "world"]);
    assert!(before.new_file_structure);
    assert!(after.new_file_structure);
}

#[test]
fn resolves_every_subcommand_to_its_target() {
    let p = || FilePath::from_text("a/b.dat");
    let cases = vec![
        (CliCommand::Player { path: p() }, OpenTarget::Player(p())),
        (CliCommand::Nbt { path: p() }, OpenTarget::Nbt(p())),
        (CliCommand::Stats { path: p() }, OpenTarget::Stats(p())),
        (CliCommand::Advancements { path: p() }, OpenTarget::Advancements(p())),
    ];
    for (command, target) in cases {
        let launch = resolve(&Cli { new_file_structure: false, command: Some(command) }).unwrap();
        assert_eq!(launch.target, target);
    }
}

#[test]
fn validate_accepts_one_target() {
    assert!(validate(&Cli { new_file_structure: false, command: None }).is_ok());
    let cli = Cli { new_file_structure: true, command: Some(CliCommand::Nbt { path: FilePath::from_text("x.nbt") }) };
    assert!(validate(&cli).is_ok());
}
