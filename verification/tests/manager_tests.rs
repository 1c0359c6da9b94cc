use rusty_cli::find_opt;
use rusty_cli::Command;
use rusty_cli::CommandError;
use rusty_cli::CommandManager;
use rusty_cli::Opt;
use rusty_cli::OptValue;

/// The `ls` command: succeeds only when the `--all` flag was parsed to
/// `true`, which is what invoking it with `--all` must produce.
struct LsCommand;

impl Command for LsCommand {
    fn opts(&self) -> Vec<Opt> {
        vec![
            Opt::new(
                "a",
                "all",
                OptValue::BOOL(false),
                "do not ignore entries starting with .",
            ),
            Opt::new(
                "l",
                "long",
                OptValue::BOOL(false),
                "use a long listing format",
            ),
            Opt::new(
                "h",
                "human-readable",
                OptValue::BOOL(false),
                "with -l and -s, print sizes like 1K 234M 2G etc.",
            ),
        ]
    }

    fn run(&self, _args: Vec<String>, opts: Vec<(Opt, OptValue)>) -> Result<(), CommandError> {
        let mut all = false;

        if let Some(opt) = find_opt(opts, "--all".to_string()) {
            if let OptValue::BOOL(value) = opt {
                all = value;
            }
        }

        if all {
            Ok(())
        } else {
            Err(CommandError::new())
        }
    }
}

#[test]
fn test_ls_command() {
    let mut manager = CommandManager::new();
    manager.add_command("ls".to_string(), LsCommand);

    let args = vec!["ls".to_string(), "--all".to_string()];

    let res = manager.run(args);

    assert!(res.is_ok());

    let args = vec!["-h".to_string()];

    let res = manager.run(args);

    assert!(res.is_ok());
}

struct EchoCommand;

impl Command for EchoCommand {
    fn opts(&self) -> Vec<Opt> {
        vec![Opt::new(
            "n",
            "no-newline",
            OptValue::BOOL(false),
            "do not output the trailing newline",
        )]
    }

    fn run(&self, args: Vec<String>, opts: Vec<(Opt, OptValue)>) -> Result<(), CommandError> {
        let mut no_newline = false;

        if let Some(opt) = find_opt(opts, "--no-newline".to_string()) {
            if let OptValue::BOOL(value) = opt {
                no_newline = value;
            }
        }

        let output = args.join(" ");

        if !no_newline {
            println!("{}", output);
        }

        Ok(())
    }
}

#[test]
fn test_echo_command() {
    let mut manager = CommandManager::new();

    manager.add_command("echo".to_string(), EchoCommand);

    let args = vec!["echo".to_string(), "Hello".to_string(), "World".to_string()];

    let res = manager.run(args);

    assert!(res.is_ok());
}

/// A stand-in for a file-printing command: it knows one name and fails on
/// any other, the way reading a missing file would.
struct CatCommand;

impl Command for CatCommand {
    fn run(&self, args: Vec<String>, _opts: Vec<(Opt, OptValue)>) -> Result<(), CommandError> {
        for arg in args.iter().skip(1) {
            if arg != "Cargo.toml" {
                return Err(CommandError::new());
            }
        }

        Ok(())
    }
}

#[test]
fn test_cat_command() {
    let mut manager = CommandManager::new();
    manager.add_command("cat".to_string(), CatCommand);

    let args = vec!["cat".to_string(), "Cargo.toml".to_string()];

    let res = manager.run(args);

    assert!(res.is_ok());

    let args = vec!["cat".to_string(), "non-existent-file".to_string()];
    let res = manager.run(args);

    assert!(res.is_err());
}

enum TestCmd {
    One,
    Two,
}

impl Command for TestCmd {
    fn run(&self, args: Vec<String>, _opts: Vec<(Opt, OptValue)>) -> Result<(), CommandError> {
        let expected = match self {
            TestCmd::One => "one",
            TestCmd::Two => "two",
        };
        if args.len() == 2 && args[0] == "test" && args[1] == expected {
            Ok(())
        } else {
            Err(CommandError::new())
        }
    }
}

#[test]
fn test_command_manager() {
    let mut manager = CommandManager::new();
    manager.add_command("test one".to_string(), TestCmd::One);
    manager.add_command("test two".to_string(), TestCmd::Two);

    let args = vec!["test".to_string(), "one".to_string()];
    let res = manager.run(args);
    assert!(res.is_ok());

    let args = vec!["test".to_string(), "two".to_string()];
    let res = manager.run(args);
    assert!(res.is_ok());

    let args = vec!["--help".to_string()];

    let res = manager.run(args);

    assert!(res.is_ok());
}
