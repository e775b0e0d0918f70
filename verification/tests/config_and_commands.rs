use shellrs::configs::config_map::ConfigMap;
use shellrs::configs::shell_modules::{
    parse_aliases, plan_pipe, split_chain, split_pipe, ChainAction, ChainEvent,
};
use shellrs::configs::{
    config_location, config_location_found, config_path_found, get_config_path, parse_config,
    parse_config_line, ConfigLine, ConfigWarning, ShellConfig, DEFAULT_CONFIG,
};
use shellrs::error::ShellError;
use shellrs::text::{contains_str, find_char, split_arguments, str_eq, trim};
use shellrs::{
    is_handled_by_shell, next_step, parse_commands, plan_found, plan_with_home,
    prompt_color_setting,
    CommandPlan, ShellStep,
};

fn strings(words: &[&str]) -> Vec<String> {
    words.iter().map(|w| w.to_string()).collect()
}

fn entry(line: &str) -> Option<(String, String)> {
    match parse_config_line(line) {
        ConfigLine::Entry(k, v) => Some((k, v)),
        _ => None,
    }
}

#[test]
fn config_line_blank_and_comment() {
    assert!(matches!(parse_config_line(""), ConfigLine::Blank));
    assert!(matches!(parse_config_line("# a = b"), ConfigLine::Blank));
}

#[test]
fn config_line_entries() {
    assert_eq!(entry("a=b"), Some(("a".to_string(), "b".to_string())));
    assert_eq!(
        entry("  prompt_color =  red   # my color"),
        Some(("prompt_color".to_string(), "red".to_string()))
    );
    assert_eq!(
        entry("alias ll = ls -l"),
        Some(("alias ll".to_string(), "ls -l".to_string()))
    );
}

#[test]
fn config_line_warnings() {
    assert!(matches!(parse_config_line("novalue"), ConfigLine::MissingKeyOrValue));
    assert!(matches!(parse_config_line("=b"), ConfigLine::MissingKeyOrValue));
    assert!(matches!(parse_config_line("a=   "), ConfigLine::MissingKeyOrValue));
    assert!(matches!(parse_config_line("  # indented"), ConfigLine::MissingKeyOrValue));
    assert!(matches!(parse_config_line("a = b # c = d"), ConfigLine::Entry(_, _)));
    assert!(matches!(parse_config_line("a=b=c"), ConfigLine::TooManyEquals));
    assert!(matches!(parse_config_line("a==b"), ConfigLine::TooManyEquals));
}

#[test]
fn parse_config_later_setting_wins() {
    let lines = strings(&["# header", "color = red", "", "bad line", "color = blue", "x=y=z", "k = v"]);
    let parsed = parse_config(&lines);
    assert_eq!(parsed.settings.get("color"), Some(&"blue".to_string()));
    assert_eq!(parsed.settings.get("k"), Some(&"v".to_string()));
    assert_eq!(parsed.settings.get("bad line"), None);
    assert_eq!(parsed.settings.len(), 2);
    assert_eq!(
        parsed.warnings,
        vec![ConfigWarning::MissingKeyOrValue, ConfigWarning::TooManyEquals]
    );
}

#[test]
fn parse_config_in_two_parts() {
    let a = strings(&["p = 1", "q = 2", "oops"]);
    let b = strings(&["q = 3", "r = 4", "s=t=u"]);
    let mut all = a.clone();
    all.extend(b.clone());
    let whole = parse_config(&all);
    let first = parse_config(&a);
    let second = parse_config(&b);
    for key in ["p", "q", "r"] {
        let expected = second.settings.get(key).or(first.settings.get(key));
        assert_eq!(whole.settings.get(key), expected);
    }
    let mut warnings = first.warnings.clone();
    warnings.extend(second.warnings.clone());
    assert_eq!(whole.warnings, warnings);
}

#[test]
fn parsed_settings_are_clean() {
    let lines = strings(&[" a b = c d ", "\u{3000}k\u{a0}=\u{2003}v"]);
    let parsed = parse_config(&lines);
    for i in 0..parsed.settings.len() {
        let k = parsed.settings.key_at(i);
        let v = parsed.settings.value_at(i);
        for t in [k, v] {
            assert!(!t.is_empty());
            assert_eq!(t.trim(), t.as_str());
            assert!(!t.contains('=') && !t.contains('#'));
        }
    }
    assert_eq!(parsed.settings.get("a b"), Some(&"c d".to_string()));
    assert_eq!(parsed.settings.get("k"), Some(&"v".to_string()));
}

#[test]
fn warning_messages() {
    assert_eq!(
        ConfigWarning::MissingKeyOrValue.message(),
        "Either key or value is missing, skipping line."
    );
    assert_eq!(
        ConfigWarning::TooManyEquals.message(),
        "Line has more than one equal sign, skipping line."
    );
}

#[test]
fn config_map_insert_and_get() {
    let mut m = ConfigMap::new();
    assert_eq!(m.len(), 0);
    assert_eq!(m.get("a"), None);
    m.insert("a".to_string(), "1".to_string());
    m.insert("b".to_string(), "2".to_string());
    m.insert("a".to_string(), "3".to_string());
    assert_eq!(m.get("a"), Some(&"3".to_string()));
    assert_eq!(m.get("b"), Some(&"2".to_string()));
    assert_eq!(m.len(), 2);
    assert_eq!(m.key_at(0), "a");
    assert_eq!(m.value_at(0), "3");
}

#[test]
fn aliases_from_config() {
    let parsed = parse_config(&strings(&[
        "alias ll = ls -l",
        "prompt_color = red",
        "aliasnospace = x",
        "myalias gs = git status",
    ]));
    let aliases = parse_aliases(&parsed.settings);
    assert_eq!(aliases.aliases.get("ll"), Some(&"ls -l".to_string()));
    assert_eq!(aliases.aliases.get("gs"), Some(&"git status".to_string()));
    assert_eq!(aliases.aliases.len(), 2);
    assert_eq!(aliases.skipped, 1);
}

#[test]
fn prompt_color_setting_default() {
    let parsed = parse_config(&strings(&["prompt_color = purple"]));
    assert_eq!(prompt_color_setting(&parsed.settings), "purple");
    assert_eq!(prompt_color_setting(&ConfigMap::new()), "green");
}

#[test]
fn shell_config_build() {
    assert!(matches!(ShellConfig::build(vec![]), Err(ShellError::MissingPromptColor)));
    assert!(matches!(
        ShellConfig::build(strings(&["red"])),
        Err(ShellError::MissingPromptFormat)
    ));
    let c = ShellConfig::build(strings(&["red", "%u@%h", "extra"])).ok().unwrap();
    assert_eq!(c.prompt_color, "red");
    assert_eq!(c.prompt_string_format, "%u@%h");
}

#[test]
fn config_path_suffix() {
    if let Ok(p) = get_config_path() {
        assert!(p.ends_with("/.config/warlock-shell/warlock.conf"));
    }
    if let Ok(l) = config_location() {
        assert_eq!(l.file, l.directory.clone() + "/warlock.conf");
        assert!(l.directory.ends_with("/.config/warlock-shell"));
        if let Ok(p) = get_config_path() {
            assert_eq!(p, l.file);
        }
    }
}

#[test]
fn split_arguments_words() {
    assert_eq!(split_arguments("  ls   -l \t/tmp\n"), strings(&["ls", "-l", "/tmp"]));
    assert_eq!(split_arguments(""), Vec::<String>::new());
    assert_eq!(split_arguments(" \u{3000} "), Vec::<String>::new());
    assert_eq!(split_arguments("a\u{2003}b"), strings(&["a", "b"]));
    let line = "  echo  héllo\twörld  ";
    let words = split_arguments(line);
    let std_words: Vec<String> = line.split_whitespace().map(|w| w.to_string()).collect();
    assert_eq!(words, std_words);
    for w in &words {
        assert!(!w.is_empty() && !w.chars().any(char::is_whitespace));
    }
}

#[test]
fn text_helpers() {
    assert_eq!(trim("  a b \u{a0}"), "a b");
    assert_eq!(trim("   "), "");
    assert!(str_eq("héllo", "héllo"));
    assert!(!str_eq("a", "ab"));
    assert!(contains_str("myalias x", "alias"));
    assert!(!contains_str("alia", "alias"));
    assert!(contains_str("abc", ""));
    assert_eq!(find_char("a=b=c", '=', 0), 1);
    assert_eq!(find_char("a=b=c", '=', 2), 3);
    assert_eq!(find_char("abc", '=', 0), 3);
}

fn plan(words: &[&str], home: &str) -> CommandPlan {
    plan_with_home(&words.to_vec(), home)
}

#[test]
fn plan_builtins_and_codes() {
    assert!(matches!(plan(&[], "/h"), CommandPlan::Nothing));
    assert!(matches!(plan(&["exit"], "/h"), CommandPlan::Exit));
    assert_eq!(plan(&["exit"], "/h").code(), 255);
    assert!(matches!(plan(&["help"], "/h"), CommandPlan::Help));
    assert!(matches!(plan(&["clear"], "/h"), CommandPlan::Clear));
    match plan(&["type", "ls"], "/h") {
        CommandPlan::Type(w) => assert_eq!(w, "ls"),
        _ => panic!("type asks about its word"),
    }
    match plan(&["type"], "/h") {
        CommandPlan::Type(w) => assert_eq!(w, "type"),
        _ => panic!("type alone asks about itself"),
    }
    assert_eq!(plan(&["type", "ls"], "/h").code(), 1);
    assert!(matches!(plan(&["warlock_gen_config"], "/h"), CommandPlan::GenerateConfig));
    assert_eq!(plan(&["help"], "/h").code(), 1);
    assert!(matches!(plan(&["ls", "-l"], "/h"), CommandPlan::External));
    assert_eq!(plan(&["ls", "-l"], "/h").code(), 0);
    assert_eq!(plan(&[], "/h").code(), 1);
}

#[test]
fn plan_cd_targets() {
    match plan(&["cd"], "/home/alice") {
        CommandPlan::ChangeDirectory(d) => assert_eq!(d, "/home/alice"),
        _ => panic!("cd alone changes to the home directory"),
    }
    match plan(&["cd", "~/src"], "/home/alice") {
        CommandPlan::ChangeDirectory(d) => assert_eq!(d, "/home/alice/src"),
        _ => panic!("cd with an argument changes to it"),
    }
}

#[test]
fn plan_pipes_and_chains() {
    match plan(&["ls", "~", "|", "wc"], "/h") {
        CommandPlan::Pipe(w) => assert_eq!(w, strings(&["ls", "/h", "|", "wc"])),
        _ => panic!("a pipe"),
    }
    match plan(&["cd", "x", "&&", "ls"], "/h") {
        CommandPlan::Chain(w) => assert_eq!(w, strings(&["cd", "x", "&&", "ls"])),
        _ => panic!("a chain"),
    }
    assert_eq!(plan(&["exit", "|", "x"], "/h").code(), 1);
    assert_eq!(plan(&["a", "&&", "b"], "/h").code(), 1);
    assert_eq!(plan(&["ls", "|", "wc"], "/h").code(), 1);
}

#[test]
fn parse_commands_empty_and_exit() {
    assert!(matches!(parse_commands(&vec![]), CommandPlan::Nothing));
    let p = parse_commands(&vec!["exit"]);
    assert!(matches!(p, CommandPlan::Exit | CommandPlan::HomeUnavailable));
}

#[test]
fn chain_split_cases() {
    assert!(matches!(split_chain(&strings(&["ls"])), Ok(None)));
    assert!(matches!(split_chain(&strings(&["ls", "&&"])), Err(ShellError::NothingAfterChain)));
    assert!(matches!(split_chain(&strings(&["&&", "ls"])), Err(ShellError::NothingBeforeChain)));
    let c = split_chain(&strings(&["a", "b", "&&", "c", "&&", "d"])).ok().unwrap().unwrap();
    assert_eq!(c.left(), &strings(&["a", "b"]));
    assert_eq!(c.right(), &strings(&["c", "&&", "d"]));
}

fn handled(a: &ChainAction) -> Option<Vec<String>> {
    match a {
        ChainAction::Handle(w) => Some(w.clone()),
        _ => None,
    }
}

#[test]
fn chain_runs_both_programs_in_order() {
    let mut c = split_chain(&strings(&["a", "x", "&&", "b"])).ok().unwrap().unwrap();
    assert_eq!(handled(&c.step(ChainEvent::Begin)), Some(strings(&["a", "x"])));
    match c.step(ChainEvent::Code(0)) {
        ChainAction::RunCaptured(inv) => {
            assert_eq!(inv.program, "a");
            assert_eq!(inv.args, strings(&["x"]));
        }
        _ => panic!("the left program runs"),
    }
    assert_eq!(handled(&c.step(ChainEvent::Finished(true))), Some(strings(&["b"])));
    match c.step(ChainEvent::Code(0)) {
        ChainAction::Run(inv) => {
            assert_eq!(inv.program, "b");
            assert!(inv.args.is_empty());
        }
        _ => panic!("the right program runs"),
    }
    assert!(matches!(c.step(ChainEvent::Finished(false)), ChainAction::Finish(Ok(()))));
}

#[test]
fn chain_stops_after_failure() {
    let mut c = split_chain(&strings(&["false", "&&", "cd", "/tmp"])).ok().unwrap().unwrap();
    c.step(ChainEvent::Begin);
    assert!(matches!(c.step(ChainEvent::Code(0)), ChainAction::RunCaptured(_)));
    assert!(matches!(
        c.step(ChainEvent::Finished(false)),
        ChainAction::Finish(Err(ShellError::FirstCommandFailed))
    ));
}

#[test]
fn chain_with_builtin_sides() {
    let mut c = split_chain(&strings(&["cd", "/tmp", "&&", "b", "&&", "c"])).ok().unwrap().unwrap();
    assert_eq!(handled(&c.step(ChainEvent::Begin)), Some(strings(&["cd", "/tmp"])));
    assert_eq!(handled(&c.step(ChainEvent::Code(1))), Some(strings(&["b", "&&", "c"])));
    assert!(matches!(c.step(ChainEvent::Code(1)), ChainAction::Finish(Ok(()))));
}

#[test]
fn chain_repeats_unanswered_action() {
    let mut c = split_chain(&strings(&["a", "&&", "b"])).ok().unwrap().unwrap();
    c.step(ChainEvent::Begin);
    assert_eq!(handled(&c.step(ChainEvent::Finished(true))), Some(strings(&["a"])));
}

#[test]
fn pipe_split_and_plan() {
    assert!(split_pipe(&strings(&["ls"])).is_none());
    let (l, r) = split_pipe(&strings(&["ls", "-l", "|", "wc", "-c"])).unwrap();
    assert_eq!(l, strings(&["ls", "-l"]));
    assert_eq!(r, strings(&["wc", "-c"]));
    let (up, down) = plan_pipe(&l, &r, 0).ok().unwrap();
    assert_eq!(up.program, "ls");
    assert_eq!(up.args, strings(&["-l"]));
    assert_eq!(down.program, "wc");
    assert_eq!(down.args, strings(&["-c"]));
    assert!(matches!(plan_pipe(&strings(&["cd", "x"]), &r, 1), Err(ShellError::CouldNotParse)));
    match plan_pipe(&l, &strings(&["cd", "x"]), 0) {
        Ok((_, down)) => assert_eq!(down.program, "cd"),
        Err(_) => panic!("the right side runs as a program"),
    }
    assert!(matches!(plan_pipe(&vec![], &r, 0), Err(ShellError::CouldNotParse)));
    assert!(matches!(plan_pipe(&l, &vec![], 0), Err(ShellError::NothingAfterPipe)));
}

#[test]
fn handled_by_shell_words() {
    assert!(is_handled_by_shell(&vec![]));
    assert!(is_handled_by_shell(&strings(&["cd"])));
    assert!(is_handled_by_shell(&strings(&["a", "|", "b"])));
    assert!(!is_handled_by_shell(&strings(&["ls", "-l"])));
}

#[test]
fn alias_line_becomes_one_alias() {
    let parsed = parse_config(&strings(&["alias ll = ls -l", "prompt_color = red"]));
    let aliases = parse_aliases(&parsed.settings);
    assert_eq!(aliases.aliases.len(), 1);
    assert_eq!(aliases.aliases.get("ll"), Some(&"ls -l".to_string()));
    assert_eq!(aliases.skipped, 0);
}

#[test]
fn next_step_with_aliases() {
    let parsed = parse_config(&strings(&["alias ll = ls  -l"]));
    let aliases = parse_aliases(&parsed.settings).aliases;
    assert!(matches!(next_step(1, &vec![], &aliases), ShellStep::Continue));
    assert!(matches!(next_step(255, &strings(&["exit"]), &aliases), ShellStep::Exit));
    match next_step(0, &strings(&["ll", "/tmp"]), &aliases) {
        ShellStep::Run(w) => assert_eq!(w, strings(&["ls", "-l"])),
        _ => panic!("an alias runs its words"),
    }
    match next_step(0, &strings(&["echo", "hi"]), &aliases) {
        ShellStep::Run(w) => assert_eq!(w, strings(&["echo", "hi"])),
        _ => panic!("a program runs"),
    }
}

#[test]
fn plan_without_tilde_ignores_home() {
    for words in [&["ls", "-l"][..], &["cd", "/tmp"], &["exit"], &["a", "|", "b"], &["a", "&&", "b"]] {
        assert_eq!(plan(words, "/one").code(), plan(words, "/two").code());
    }
    match (plan(&["a", "|", "b"], "/one"), plan(&["a", "|", "b"], "/two")) {
        (CommandPlan::Pipe(x), CommandPlan::Pipe(y)) => assert_eq!(x, y),
        _ => panic!("both are pipes"),
    }
}

#[test]
fn later_line_overrides_earlier() {
    let before = parse_config(&strings(&["k = 1", "j = 2"]));
    let after = parse_config(&strings(&["k = 1", "j = 2", "k = 9"]));
    assert_eq!(after.settings.get("k"), Some(&"9".to_string()));
    assert_eq!(after.settings.get("j"), before.settings.get("j"));
    assert_eq!(after.settings.key_at(0), "k");
    let same = parse_config(&strings(&["k = 1", "j = 2", "# k = 9"]));
    assert_eq!(same.settings.get("k"), Some(&"1".to_string()));
}

#[test]
fn default_config_reads_back_empty() {
    let lines: Vec<String> = DEFAULT_CONFIG.lines().map(|l| l.to_string()).collect();
    assert_eq!(lines.len(), 3);
    let parsed = parse_config(&lines);
    assert_eq!(parsed.settings.len(), 0);
    assert!(parsed.warnings.is_empty());
}

#[test]
fn alias_line_of_config_text() {
    let text = "alias ll = ls -l\nprompt_color = red\n";
    let lines: Vec<String> = text.lines().map(|l| l.to_string()).collect();
    let aliases = parse_aliases(&parse_config(&lines).settings);
    assert_eq!(aliases.aliases.len(), 1);
    assert_eq!(aliases.aliases.get("ll"), Some(&"ls -l".to_string()));
}

#[test]
fn config_paths_from_lookup() {
    assert_eq!(
        config_path_found(Ok("/home/a".to_string())),
        Ok("/home/a/.config/warlock-shell/warlock.conf".to_string())
    );
    assert_eq!(config_path_found(Err(ShellError::HomeNotUnicode)), Err(ShellError::HomeNotUnicode));
    let l = config_location_found(Ok("/home/a".to_string())).ok().unwrap();
    assert_eq!(l.directory, "/home/a/.config/warlock-shell");
    assert_eq!(l.file, "/home/a/.config/warlock-shell/warlock.conf");
    assert!(matches!(
        config_location_found(Err(ShellError::HomeNotFound)),
        Err(ShellError::HomeNotFound)
    ));
}

#[test]
fn plan_from_lookup() {
    assert!(matches!(plan_found(&vec![], Err(ShellError::HomeNotFound)), CommandPlan::Nothing));
    assert!(matches!(
        plan_found(&vec!["ls"], Err(ShellError::HomeNotFound)),
        CommandPlan::HomeUnavailable
    ));
    match plan_found(&vec!["cd"], Ok("/home/a".to_string())) {
        CommandPlan::ChangeDirectory(d) => assert_eq!(d, "/home/a"),
        _ => panic!("cd alone changes to the home directory"),
    }
}
