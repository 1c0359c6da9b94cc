use rusty_cli::find_opt;
use rusty_cli::numbers::parse_i64;
use rusty_cli::numbers::parse_u64;
use rusty_cli::text::split_whitespace_tokens;
use rusty_cli::Command;
use rusty_cli::CommandError;
use rusty_cli::CommandManager;
use rusty_cli::Opt;
use rusty_cli::OptValue;

fn strings(words: &[&str]) -> Vec<String> {
    words.iter().map(|w| w.to_string()).collect()
}

fn empty_manager() -> CommandManager<NoCmd> {
    CommandManager::new()
}

struct NoCmd;

impl Command for NoCmd {
    fn run(&self, _args: Vec<String>, _opts: Vec<(Opt, OptValue)>) -> Result<(), CommandError> {
        Ok(())
    }
}

struct AlwaysFails;

impl Command for AlwaysFails {
    fn run(&self, _args: Vec<String>, _opts: Vec<(Opt, OptValue)>) -> Result<(), CommandError> {
        Err(CommandError::new())
    }
}

enum Cmd {
    Old,
    New,
}

impl Command for Cmd {
    fn run(&self, _args: Vec<String>, _opts: Vec<(Opt, OptValue)>) -> Result<(), CommandError> {
        match self {
            Cmd::Old => Err(CommandError::new()),
            Cmd::New => Ok(()),
        }
    }
}

struct Ls;

impl Command for Ls {
    fn opts(&self) -> Vec<Opt> {
        vec![Opt::new("a", "all", OptValue::BOOL(false), "show all")]
    }

    fn run(&self, _args: Vec<String>, _opts: Vec<(Opt, OptValue)>) -> Result<(), CommandError> {
        Ok(())
    }
}

#[derive(Debug, PartialEq)]
struct Tag(u8);

impl Command for Tag {
    fn run(&self, _args: Vec<String>, _opts: Vec<(Opt, OptValue)>) -> Result<(), CommandError> {
        Ok(())
    }
}

#[test]
fn test_bool_flag_without_value_is_true() {
    let m = empty_manager();
    let opts = vec![Opt::new("a", "all", OptValue::BOOL(false), "show all")];
    let parsed = m.parse_opts(&strings(&["ls", "--all"]), &opts);
    assert_eq!(parsed.len(), 1);
    assert_eq!(
        find_opt(parsed, "--all".to_string()),
        Some(OptValue::BOOL(true))
    );
}

#[test]
fn test_bool_flag_with_false_token() {
    let m = empty_manager();
    let opts = vec![Opt::new("a", "all", OptValue::BOOL(false), "show all")];
    let parsed = m.parse_opts(&strings(&["ls", "--all", "false"]), &opts);
    assert_eq!(
        find_opt(parsed, "-a".to_string()),
        Some(OptValue::BOOL(false))
    );
}

#[test]
fn test_bool_flag_with_garbage_token_is_true() {
    let m = empty_manager();
    let opts = vec![Opt::new("a", "all", OptValue::BOOL(false), "show all")];
    let parsed = m.parse_opts(&strings(&["ls", "--all", "maybe"]), &opts);
    assert_eq!(
        find_opt(parsed, "--all".to_string()),
        Some(OptValue::BOOL(true))
    );
}

#[test]
fn test_int_flag_bad_token_falls_back_to_default() {
    let m = empty_manager();
    let opts = vec![Opt::new("c", "count", OptValue::INT64(7), "how many")];
    let parsed = m.parse_opts(&strings(&["x", "--count", "abc"]), &opts);
    assert_eq!(
        find_opt(parsed, "--count".to_string()),
        Some(OptValue::INT64(7))
    );
}

#[test]
fn test_int_flag_parses_value() {
    let m = empty_manager();
    let opts = vec![Opt::new("c", "count", OptValue::INT64(7), "how many")];
    let parsed = m.parse_opts(&strings(&["x", "--count", "-42"]), &opts);
    assert_eq!(
        find_opt(parsed, "-c".to_string()),
        Some(OptValue::INT64(-42))
    );
}

#[test]
fn test_uint_flag_parses_and_falls_back() {
    let m = empty_manager();
    let opts = vec![Opt::new("n", "num", OptValue::UINT64(3), "a count")];
    let parsed = m.parse_opts(&strings(&["x", "--num", "10"]), &opts);
    assert_eq!(
        find_opt(parsed, "--num".to_string()),
        Some(OptValue::UINT64(10))
    );
    let parsed = m.parse_opts(&strings(&["x", "--num", "-1"]), &opts);
    assert_eq!(
        find_opt(parsed, "--num".to_string()),
        Some(OptValue::UINT64(3))
    );
}

#[test]
fn test_string_flag_takes_token_verbatim() {
    let m = empty_manager();
    let opts = vec![Opt::new("o", "out", OptValue::STRING("a.txt".to_string()), "output")];
    let parsed = m.parse_opts(&strings(&["x", "--out", "b.txt"]), &opts);
    assert_eq!(
        find_opt(parsed, "--out".to_string()),
        Some(OptValue::STRING("b.txt".to_string()))
    );
}

#[test]
fn test_string_flag_missing_token_falls_back() {
    let m = empty_manager();
    let opts = vec![Opt::new("o", "out", OptValue::STRING("a.txt".to_string()), "output")];
    let parsed = m.parse_opts(&strings(&["x", "--out"]), &opts);
    assert_eq!(
        find_opt(parsed, "--out".to_string()),
        Some(OptValue::STRING("a.txt".to_string()))
    );
}

#[test]
fn test_later_occurrence_overwrites_earlier() {
    let m = empty_manager();
    let opts = vec![Opt::new("c", "count", OptValue::INT64(0), "how many")];
    let parsed = m.parse_opts(&strings(&["--count", "1", "--count", "2"]), &opts);
    assert_eq!(parsed.len(), 1);
    assert_eq!(
        find_opt(parsed, "--count".to_string()),
        Some(OptValue::INT64(2))
    );
}

#[test]
fn test_unknown_flag_is_ignored() {
    let m = empty_manager();
    let opts = vec![Opt::new("a", "all", OptValue::BOOL(false), "show all")];
    let parsed = m.parse_opts(&strings(&["ls", "--bogus"]), &opts);
    assert_eq!(parsed.len(), 0);
}

#[test]
fn test_round_trip_subset_with_positional_noise() {
    let m = empty_manager();
    let opts = vec![
        Opt::new("a", "all", OptValue::BOOL(false), "show all"),
        Opt::new("c", "count", OptValue::INT64(0), "how many"),
        Opt::new("o", "out", OptValue::STRING(String::new()), "output"),
    ];
    let parsed = m.parse_opts(
        &strings(&["tool", "sub", "--count", "5", "positional", "--out", "f.txt"]),
        &opts,
    );
    assert_eq!(parsed.len(), 2);
    assert_eq!(
        find_opt(parsed.clone(), "--count".to_string()),
        Some(OptValue::INT64(5))
    );
    assert_eq!(
        find_opt(parsed.clone(), "--out".to_string()),
        Some(OptValue::STRING("f.txt".to_string()))
    );
    assert_eq!(find_opt(parsed, "--all".to_string()), None);
}

#[test]
fn test_find_opt_missing_and_present() {
    let opt = Opt::new("c", "count", OptValue::INT64(0), "how many");
    let entries = vec![(opt, OptValue::INT64(3))];
    assert_eq!(
        find_opt(entries.clone(), "--count".to_string()),
        Some(OptValue::INT64(3))
    );
    assert_eq!(
        find_opt(entries.clone(), "-c".to_string()),
        Some(OptValue::INT64(3))
    );
    assert_eq!(find_opt(entries, "--missing".to_string()), None);
}

#[test]
fn test_parse_i64_exact() {
    assert_eq!(parse_i64("123"), Some(123));
    assert_eq!(parse_i64("+42"), Some(42));
    assert_eq!(parse_i64("-5"), Some(-5));
    assert_eq!(parse_i64("0"), Some(0));
    assert_eq!(parse_i64("9223372036854775807"), Some(i64::MAX));
    assert_eq!(parse_i64("-9223372036854775808"), Some(i64::MIN));
    assert_eq!(parse_i64("9223372036854775808"), None);
    assert_eq!(parse_i64("-9223372036854775809"), None);
    assert_eq!(parse_i64(""), None);
    assert_eq!(parse_i64("+"), None);
    assert_eq!(parse_i64("-"), None);
    assert_eq!(parse_i64("12a"), None);
    assert_eq!(parse_i64(" 1"), None);
}

#[test]
fn test_parse_u64_exact() {
    assert_eq!(parse_u64("0"), Some(0));
    assert_eq!(parse_u64("+7"), Some(7));
    assert_eq!(parse_u64("18446744073709551615"), Some(u64::MAX));
    assert_eq!(parse_u64("18446744073709551616"), None);
    assert_eq!(parse_u64("-1"), None);
    assert_eq!(parse_u64(""), None);
    assert_eq!(parse_u64("1 "), None);
}

#[test]
fn test_split_whitespace_tokens() {
    let toks = split_whitespace_tokens("test one");
    assert_eq!(toks, strings(&["test", "one"]));
    let toks = split_whitespace_tokens("  a \t b  ");
    assert_eq!(toks, strings(&["a", "b"]));
    let toks = split_whitespace_tokens("");
    assert!(toks.is_empty());
    let toks = split_whitespace_tokens("solo");
    assert_eq!(toks, strings(&["solo"]));
}

#[test]
fn test_help_invocation_always_succeeds() {
    let m = empty_manager();
    assert!(m.run(strings(&["-h"])).is_ok());
    assert!(m.run(strings(&["--help"])).is_ok());
    assert!(m.run(Vec::new()).is_ok());

    let mut m = CommandManager::new();
    m.add_command("boom".to_string(), AlwaysFails);
    assert!(m.run(strings(&["-h"])).is_ok());
    assert!(m.run(strings(&["--help"])).is_ok());
    assert!(m.run(Vec::new()).is_ok());
}

#[test]
fn test_unmatched_path_fails_dispatch() {
    let mut m = CommandManager::new();
    m.add_command("ls".to_string(), NoCmd);
    assert!(m.run(strings(&["nonexistent"])).is_err());
    assert!(empty_manager().run(strings(&["anything"])).is_err());
}

#[test]
fn test_reregistering_a_path_replaces_the_command() {
    let mut m = CommandManager::new();
    m.add_command("t".to_string(), Cmd::Old);
    m.add_command("t".to_string(), Cmd::New);
    assert!(m.run(strings(&["t"])).is_ok());
}

#[test]
fn test_help_text_layout() {
    let mut m = CommandManager::new();
    m.add_command("ls".to_string(), Ls);
    assert_eq!(
        m.help_text(),
        "Available commands:\nls\n  -a, --all: show all\n".to_string()
    );
}

#[test]
fn test_opt_new_and_error_message() {
    let o = Opt::new("a", "all", OptValue::BOOL(false), "show all");
    assert_eq!(o.short, "a".to_string());
    assert_eq!(o.long, "all".to_string());
    assert_eq!(o.value, OptValue::BOOL(false));
    assert_eq!(o.description, "show all".to_string());
    assert_eq!(CommandError::new().message(), "CommandError".to_string());
}

#[test]
fn test_get_command_resolves_exactly() {
    let mut m = CommandManager::new();
    m.add_command("test one".to_string(), Tag(1));
    m.add_command("test two".to_string(), Tag(2));
    assert_eq!(m.get_command(&strings(&["test", "one"])), Some(&Tag(1)));
    assert_eq!(m.get_command(&strings(&["test", "two"])), Some(&Tag(2)));
    assert_eq!(m.get_command(&strings(&["test"])), None);
    assert_eq!(m.get_command(&strings(&["one"])), None);
    assert_eq!(
        m.get_command(&strings(&["test", "one", "--all", "extra"])),
        Some(&Tag(1))
    );
}
