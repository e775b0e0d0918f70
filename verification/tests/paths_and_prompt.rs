use shellrs::commands::builtins::{command_candidates, exec_arguments};
use shellrs::configs::shell_modules::prompt_color;
use shellrs::error::ShellError;
use shellrs::system::SystemPath;
use shellrs::{
    build_shell_prompt, condense_found, condense_home, condense_path, expand_tilde_found,
    home_directory_from, prompt_from, expand_tilde, expand_tilde_with, format_prompt,
    get_home_directory,
};

#[test]
fn prompt_color_known_names() {
    assert_eq!(prompt_color(Some("red")), "\x1b[31m");
    assert_eq!(prompt_color(Some("green")), "\x1b[32m");
    assert_eq!(prompt_color(Some("yellow")), "\x1b[33m");
    assert_eq!(prompt_color(Some("blue")), "\x1b[34m");
    assert_eq!(prompt_color(Some("purple")), "\x1b[35m");
    assert_eq!(prompt_color(Some("cyan")), "\x1b[36m");
    assert_eq!(prompt_color(Some("white")), "\x1b[37m");
}

#[test]
fn prompt_color_defaults_to_green() {
    assert_eq!(prompt_color(None), "\x1b[32m");
    assert_eq!(prompt_color(Some("magenta")), "\x1b[32m");
    assert_eq!(prompt_color(Some("")), "\x1b[32m");
    assert_eq!(prompt_color(Some("Red")), "\x1b[32m");
}

#[test]
fn expand_tilde_alone_gives_home() {
    assert_eq!(expand_tilde_with("~", "/home/alice"), "/home/alice");
}

#[test]
fn expand_tilde_slash_prefix() {
    assert_eq!(expand_tilde_with("~/docs/a.txt", "/home/alice"), "/home/alice/docs/a.txt");
    assert_eq!(expand_tilde_with("~/", "/home/alice"), "/home/alice/");
}

#[test]
fn expand_tilde_other_forms_unchanged() {
    assert_eq!(expand_tilde_with("~bob", "/home/alice"), "~bob");
    assert_eq!(expand_tilde_with("", "/home/alice"), "");
    assert_eq!(expand_tilde_with("a~", "/home/alice"), "a~");
    assert_eq!(expand_tilde_with("/tmp", "/home/alice"), "/tmp");
}

#[test]
fn expand_tilde_without_tilde_needs_no_home() {
    assert_eq!(expand_tilde("ls"), "ls");
    assert_eq!(expand_tilde("~other"), "~other");
    assert_eq!(expand_tilde(""), "");
}

#[test]
fn expand_tilde_uses_the_home_directory() {
    if let Ok(home) = get_home_directory() {
        assert_eq!(expand_tilde("~"), home);
        assert_eq!(expand_tilde("~/x"), home + "/x");
    }
}

#[test]
fn condense_home_prefix() {
    assert_eq!(condense_home("/home/alice/docs", "/home/alice"), "~/docs");
    assert_eq!(condense_home("/home/alice", "/home/alice"), "~");
    assert_eq!(condense_home("/home/alice/", "/home/alice"), "~/");
}

#[test]
fn condense_home_not_a_prefix() {
    assert_eq!(condense_home("/tmp/alice/x", "/home/alice"), "/tmp/alice/x");
    assert_eq!(condense_home("/home/bobby", "/home/alice"), "/home/bobby");
    assert_eq!(condense_home("/home/alicex", "/home/alice"), "/home/alicex");
    assert_eq!(condense_home("/home/mkx/a", "/home/mk"), "/home/mkx/a");
}

#[test]
fn condense_then_expand_round_trip() {
    let home = "/home/ünï";
    for path in ["/home/ünï", "/home/ünï/a/b", "/home/ünï/", "/home/ünïx", "/tmp", "/hx", ""] {
        let c = condense_home(path, home);
        assert_eq!(expand_tilde_with(&c, home), path);
    }
    for path in ["~", "~/a", "~/a/b/"] {
        let e = expand_tilde_with(path, home);
        assert_eq!(condense_home(&e, home), path);
    }
}

#[test]
fn format_prompt_layout() {
    assert_eq!(
        format_prompt("\x1b[34m", "alice", "box", "~/src"),
        "\x1b[34malice\x1b[0m@box \x1b[34m~/src\x1b[0m> "
    );
}

#[test]
fn build_shell_prompt_without_directory() {
    let p = build_shell_prompt("cyan", None);
    assert!(p.starts_with("\x1b[36m"));
    assert!(p.ends_with("\x1b[36mERROR\x1b[0m> "));
    assert!(p.contains("\x1b[0m@"));
}

#[test]
fn home_directory_errors_are_the_two_home_errors() {
    match get_home_directory() {
        Ok(home) => assert!(!home.is_empty()),
        Err(e) => assert!(e == ShellError::HomeNotFound || e == ShellError::HomeNotUnicode),
    }
}

#[test]
fn command_candidates_follow_search_path() {
    assert_eq!(
        command_candidates("/bin:/usr/bin", "ls"),
        vec!["/bin/ls".to_string(), "/usr/bin/ls".to_string()]
    );
    assert_eq!(command_candidates("", "ls"), vec!["/ls".to_string()]);
    assert_eq!(
        command_candidates("a::b:", "x"),
        vec!["a/x".to_string(), "/x".to_string(), "b/x".to_string(), "/x".to_string()]
    );
}

#[test]
fn exec_arguments_cases() {
    assert_eq!(exec_arguments(&vec![]), Ok(vec![]));
    let args = vec!["echo".to_string(), "a\0b".to_string(), "c".to_string()];
    assert_eq!(exec_arguments(&args), Ok(vec!["echo".to_string(), "c".to_string()]));
    let bad = vec!["ec\0ho".to_string(), "c".to_string()];
    assert_eq!(exec_arguments(&bad), Err(ShellError::NulInCommand));
}

#[test]
fn error_messages() {
    assert_eq!(ShellError::HomeNotFound.message(), "Could not find home directory");
    assert_eq!(ShellError::NothingAfterChain.message(), "Nothing provided after &&.");
    assert_eq!(ShellError::NothingBeforeChain.message(), "Nothing provided before &&.");
    assert_eq!(ShellError::FirstCommandFailed.message(), "First command failed, skipping second.");
    assert_eq!(ShellError::CouldNotParse.message(), "Could not parse command.");
    assert_eq!(ShellError::NothingAfterPipe.message(), "Nothing provided after pipe.");
    assert_eq!(ShellError::MissingPromptColor.message(), "Did not receive prompt color argument.");
    assert_eq!(ShellError::MissingPromptFormat.message(), "Did not recieve prompt format argument");
    assert_eq!(ShellError::PathNotUnicode.message(), "Unable to convert PathBuf to String");
}

#[test]
fn condense_found_cases() {
    let h = "/home/alice".to_string();
    assert_eq!(condense_found("/home/alice/x".to_string(), Ok(h.clone())), Ok("~/x".to_string()));
    assert_eq!(condense_found("/tmp".to_string(), Ok(h.clone())), Ok("/tmp".to_string()));
    assert_eq!(condense_found("ab".to_string(), Ok(h.clone())), Ok("ab".to_string()));
    assert_eq!(condense_found("é".to_string(), Ok("x".to_string())), Ok("é".to_string()));
    assert_eq!(condense_found("é/a".to_string(), Ok("é".to_string())), Ok("~/a".to_string()));
    assert_eq!(
        condense_found("/home/alice".to_string(), Err(ShellError::HomeNotUnicode)),
        Err(ShellError::HomeNotUnicode)
    );
}

#[test]
fn condense_found_whole_directories_only() {
    assert_eq!(
        condense_found("/hx".to_string(), Ok("/h".to_string())),
        Ok("/hx".to_string())
    );
    assert_eq!(condense_found("/h".to_string(), Ok("/h".to_string())), Ok("~".to_string()));
}

#[test]
fn condense_path_not_unicode() {
    assert_eq!(condense_path(SystemPath { text: None }), Err(ShellError::PathNotUnicode));
}

#[test]
fn condense_path_with_text() {
    match condense_path(SystemPath { text: Some("/no/such/dir".to_string()) }) {
        Ok(s) => assert!(s == "/no/such/dir" || s.starts_with('~')),
        Err(e) => assert!(e == ShellError::HomeNotFound || e == ShellError::HomeNotUnicode),
    }
    if let Ok(home) = get_home_directory() {
        let below = home.clone() + "/src";
        assert_eq!(condense_path(SystemPath { text: Some(below) }), Ok("~/src".to_string()));
    }
}

#[test]
fn home_directory_from_lookup() {
    assert_eq!(home_directory_from(None), Err(ShellError::HomeNotFound));
    assert_eq!(
        home_directory_from(Some(SystemPath { text: None })),
        Err(ShellError::HomeNotUnicode)
    );
    assert_eq!(
        home_directory_from(Some(SystemPath { text: Some("/home/alice".to_string()) })),
        Ok("/home/alice".to_string())
    );
}

#[test]
fn prompt_shows_condensed_directory() {
    if let Ok(home) = get_home_directory() {
        let p = build_shell_prompt("red", Some(SystemPath { text: Some(home + "/x") }));
        assert!(p.ends_with("\x1b[31m~/x\x1b[0m> "));
    }
    let p = build_shell_prompt("red", Some(SystemPath { text: None }));
    assert!(p.ends_with("\x1b[31mERROR\x1b[0m> "));
}

#[test]
fn prompt_from_lookups() {
    assert_eq!(
        prompt_from("blue", Some("alice".to_string()), Some("box".to_string()), Some(Ok("~/src".to_string()))),
        "\x1b[34malice\x1b[0m@box \x1b[34m~/src\x1b[0m> "
    );
    assert_eq!(
        prompt_from("blue", None, Some("box".to_string()), None),
        "\x1b[34mERROR\x1b[0m@box \x1b[34mERROR\x1b[0m> "
    );
    assert_eq!(
        prompt_from("red", Some("u".to_string()), None, Some(Err(ShellError::HomeNotFound))),
        "\x1b[31mu\x1b[0m@ERROR \x1b[31mERROR\x1b[0m> "
    );
}

#[test]
fn prompt_for_root_directory() {
    assert_eq!(condense_found("/".to_string(), Ok("/home/alice".to_string())), Ok("/".to_string()));
    if let Ok(home) = get_home_directory() {
        if home.len() > 1 {
            let p = build_shell_prompt("green", Some(SystemPath { text: Some("/".to_string()) }));
            assert!(p.ends_with("\x1b[32m/\x1b[0m> "));
        }
    }
}

#[test]
fn expand_tilde_after_lookup() {
    assert_eq!(expand_tilde_found("~/a", Ok("/h".to_string())), "/h/a");
    assert_eq!(expand_tilde_found("~/a", Err(ShellError::HomeNotFound)), "~/a");
    assert_eq!(expand_tilde_found("x", Ok("/h".to_string())), "x");
}
