//! The library of a small interactive shell: how an input line is split
//! into arguments, which of them a builtin handles, how `~` is expanded and
//! condensed, how the prompt is formatted, and how the configuration file is
//! read.
use vstd::prelude::*;
use vstd::string::*;

pub mod error;
pub mod text;
pub mod system;
pub mod configs;
pub mod commands;

use crate::configs::config_map::ConfigMap;
use crate::configs::shell_modules::{color_code, prompt_color, slice_words};
use crate::text::views;
use crate::text::{split_arguments, str_eq, words};
use crate::error::ShellError;
use crate::system::{home_dir, hostname, username, SystemPath};

verus! {

/// Whether `path` names the home directory through `~`: it is `~` itself
/// or starts with `~/`.
pub open spec fn is_home_form(path: Seq<char>) -> bool {
    path.len() > 0 && path[0] == '~' && (path.len() == 1 || path[1] == '/')
}

/// `path` with a leading `~` replaced by `home`, where the path is `~` or
/// starts with `~/`; otherwise `path` itself.
pub open spec fn tilde_expansion(path: Seq<char>, home: Seq<char>) -> Seq<char> {
    if is_home_form(path) {
        home + path.skip(1)
    } else {
        path
    }
}

/// Expands a leading `~` in `path` to the home directory `home`.
pub fn expand_tilde_with(path: &str, home: &str) -> (r: String)
    ensures
        r@ == tilde_expansion(path@, home@),
{
    let n = path.unicode_len();
    if n == 0 || path.get_char(0) != '~' {
        return path.to_owned();
    }
    if n == 1 {
        let r = home.to_owned();
        assert(path@.skip(1) =~= Seq::<char>::empty());
        assert(r@ =~= home@ + path@.skip(1));
        return r;
    }
    if path.get_char(1) == '/' {
        let mut r = home.to_owned();
        r.append(path.substring_char(1, n));
        assert(path@.subrange(1, n as int) =~= path@.skip(1));
        return r;
    }
    path.to_owned()
}

/// The home directory as text, from what the lookup of the home directory
/// found: an error where it found none or where the path is not valid
/// Unicode, and otherwise the path's text unchanged.
pub fn home_directory_from(found: Option<SystemPath>) -> (r: Result<String, ShellError>)
    ensures
        match found {
            None => r == Err::<String, ShellError>(ShellError::HomeNotFound),
            Some(p) => match p.text {
                None => r == Err::<String, ShellError>(ShellError::HomeNotUnicode),
                Some(t) => r matches Ok(s) && s@ == t@,
            },
        },
{
    match found {
        None => Err(ShellError::HomeNotFound),
        Some(p) => match p.text {
            Some(s) => Ok(s),
            None => Err(ShellError::HomeNotUnicode),
        },
    }
}

/// The home directory of the current user, as text: what
/// `home_directory_from` makes of the lookup of the home directory.
pub fn get_home_directory() -> (r: Result<String, ShellError>)
    ensures
        r matches Err(e) ==> e == ShellError::HomeNotFound || e == ShellError::HomeNotUnicode,
{
    home_directory_from(home_dir())
}

/// Expands a leading `~` in `path`, given what the lookup of the home
/// directory gave: with a home directory, as `expand_tilde_with` does; where
/// the lookup failed, the path comes back unchanged.
pub fn expand_tilde_found(path: &str, home: Result<String, ShellError>) -> (r: String)
    ensures
        match home {
            Ok(h) => r@ == tilde_expansion(path@, h@),
            Err(_) => r@ == path@,
        },
{
    match home {
        Ok(h) => expand_tilde_with(path, h.as_str()),
        Err(_) => path.to_owned(),
    }
}

/// Expands a leading `~` in `path` to the home directory. A path that is
/// not `~` and does not start with `~/` comes back unchanged without a
/// lookup; otherwise the home directory is looked up, and what
/// `expand_tilde_found` makes of the lookup is returned.
pub fn expand_tilde(path: &str) -> (r: String)
    ensures
        !is_home_form(path@) ==> r@ == path@,
        is_home_form(path@) ==> r@ == path@ || exists|home: Seq<char>|
            r@ == tilde_expansion(path@, home),
{
    let n = path.unicode_len();
    if n == 0 || path.get_char(0) != '~' || (n > 1 && path.get_char(1) != '/') {
        return path.to_owned();
    }
    expand_tilde_found(path, get_home_directory())
}

/// Whether `path` is the directory `home` or lies below it: it starts with
/// `home`, followed by `/` or by nothing.
pub open spec fn under_home(path: Seq<char>, home: Seq<char>) -> bool {
    &&& home.len() <= path.len()
    &&& path.take(home.len() as int) == home
    &&& (home.len() == path.len() || path[home.len() as int] == '/')
}

/// `path` with the home directory `home` at its start replaced by `~`,
/// where the path is that directory or lies below it; otherwise `path`
/// itself.
pub open spec fn condensed(path: Seq<char>, home: Seq<char>) -> Seq<char> {
    if under_home(path, home) {
        seq!['~'] + path.skip(home.len() as int)
    } else {
        path
    }
}

/// Replaces the home directory `home` at the start of `path` by `~`, where
/// `path` is that directory or lies below it. The byte length of `home` must
/// not pass the end of `path` nor fall inside one of its characters.
pub fn condense_home(path: &str, home: &str) -> (r: String)
    requires
        home.len() <= path.len(),
        path.is_char_boundary(home.len()),
    ensures
        r@ == condensed(path@, home@),
{
    let n = path.unicode_len();
    let m = home.unicode_len();
    if m > n {
        return path.to_owned();
    }
    let mut i: usize = 0;
    while i < m
        invariant
            m <= n,
            n == path@.len(),
            m == home@.len(),
            i <= m,
            forall|k: int| 0 <= k < i ==> path@[k] == home@[k],
        decreases m - i,
    {
        if path.get_char(i) != home.get_char(i) {
            assert(path@.take(m as int)[i as int] != home@[i as int]);
            return path.to_owned();
        }
        i = i + 1;
    }
    assert(path@.take(m as int) =~= home@);
    if m < n && path.get_char(m) != '/' {
        return path.to_owned();
    }
    let mut r = "~".to_owned();
    proof {
        reveal_strlit("~");
    }
    r.append(path.substring_char(m, n));
    assert(path@.subrange(m as int, n as int) =~= path@.skip(m as int));
    r
}

/// Condensing undoes expanding: a path that is `~` or starts with `~/`,
/// expanded with any home directory and condensed with the same one, is
/// the path again.
pub proof fn law_condense_after_expand(path: Seq<char>, home: Seq<char>)
    requires
        is_home_form(path),
    ensures
        condensed(tilde_expansion(path, home), home) == path,
{
    let e = home + path.skip(1);
    assert(e.take(home.len() as int) =~= home);
    assert(e.skip(home.len() as int) =~= path.skip(1));
    if home.len() < e.len() {
        assert(e[home.len() as int] == path[1]);
    }
    assert(seq!['~'] + path.skip(1) =~= path);
}

/// Expanding undoes condensing: a path that does not itself start with the
/// home form `~` or `~/`, condensed with any home directory and then
/// expanded with the same one, is the path again.
pub proof fn law_expand_after_condense(path: Seq<char>, home: Seq<char>)
    requires
        !is_home_form(path),
    ensures
        tilde_expansion(condensed(path, home), home) == path,
{
    if under_home(path, home) {
        let c = seq!['~'] + path.skip(home.len() as int);
        assert(c.skip(1) =~= path.skip(home.len() as int));
        if c.len() > 1 {
            assert(c[1] == path[home.len() as int]);
        }
        assert(home + path.skip(home.len() as int) =~= path);
    }
}

/// Condensing against a home directory `h`: `h` itself becomes `~`, a path
/// `h/x` below it becomes `~/x`, and a path that is neither (a sibling that
/// only shares `h`'s text, or a path elsewhere) is left as it is.
pub proof fn law_condense_home(h: Seq<char>, x: Seq<char>, t: Seq<char>)
    ensures
        condensed(h, h) == seq!['~'],
        condensed(h + seq!['/'] + x, h) == seq!['~', '/'] + x,
        !(t.len() >= h.len() && t.take(h.len() as int) == h && (t.len() == h.len() || t[h.len() as int]
            == '/')) ==> condensed(t, h) == t,
{
    assert(h.take(h.len() as int) =~= h);
    assert(h.skip(h.len() as int) =~= Seq::<char>::empty());
    assert(seq!['~'] + Seq::<char>::empty() =~= seq!['~']);
    let p = h + seq!['/'] + x;
    assert(p.take(h.len() as int) =~= h);
    assert(p[h.len() as int] == '/');
    assert(p.skip(h.len() as int) =~= seq!['/'] + x);
    assert(seq!['~'] + (seq!['/'] + x) =~= seq!['~', '/'] + x);
}

/// The UTF-8 encoding of two character sequences one after the other is
/// the encoding of the first followed by that of the second, and the place
/// where they meet is a character boundary.
pub proof fn lemma_encode_concat(a: Seq<char>, b: Seq<char>)
    ensures
        vstd::utf8::encode_utf8(a + b) == vstd::utf8::encode_utf8(a) + vstd::utf8::encode_utf8(b),
        vstd::utf8::is_char_boundary(
            vstd::utf8::encode_utf8(a + b),
            vstd::utf8::encode_utf8(a).len() as int,
        ),
    decreases a.len(),
{
    broadcast use vstd::utf8::encode_utf8_valid_utf8;

    let e = vstd::utf8::encode_utf8(a + b);
    if a.len() == 0 {
        assert(a + b =~= b);
        assert(vstd::utf8::encode_utf8(a) =~= Seq::<u8>::empty());
        assert(vstd::utf8::encode_utf8(a) + vstd::utf8::encode_utf8(b) =~= vstd::utf8::encode_utf8(
            b,
        ));
    } else {
        let rest = a.drop_first();
        lemma_encode_concat(rest, b);
        assert((a + b).drop_first() =~= rest + b);
        assert((a + b)[0] == a[0]);
        let first = vstd::utf8::encode_scalar(a[0] as u32);
        assert(e == first + vstd::utf8::encode_utf8(rest + b));
        assert(e =~= vstd::utf8::encode_utf8(a) + vstd::utf8::encode_utf8(b));
        vstd::utf8::encode_utf8_first_scalar(a + b);
        assert(vstd::utf8::length_of_first_scalar(e) == first.len());
        assert(vstd::utf8::pop_first_scalar(e) =~= vstd::utf8::encode_utf8(rest + b));
        assert(vstd::utf8::valid_utf8(e));
        assert(vstd::utf8::encode_utf8(a).len() > 0);
    }
}

/// What remains of condensing a path once its text and the home directory
/// lookup are known: the lookup's error where it failed, and otherwise the
/// text with a leading home directory replaced by `~`.
pub fn condense_found(text: String, home: Result<String, ShellError>) -> (r: Result<
    String,
    ShellError,
>)
    ensures
        match home {
            Err(e) => r == Err::<String, ShellError>(e),
            Ok(h) => r matches Ok(s) && s@ == condensed(text@, h@),
        },
{
    let home = match home {
        Ok(h) => h,
        Err(e) => return Err(e),
    };
    let t: &str = text.as_str();
    let h: &str = home.as_str();
    if h.len() <= t.len() && t.is_char_boundary(h.len()) {
        Ok(condense_home(t, h))
    } else {
        let tb = t.as_bytes();
        let hb = h.as_bytes();
        proof {
            broadcast use vstd::slice::axiom_spec_len;

            assert(vstd::slice::spec_slice_len(tb) == tb@.len());
            assert(vstd::slice::spec_slice_len(hb) == hb@.len());
            let n = h@.len();
            if under_home(t@, h@) {
                assert(t@ =~= h@ + t@.skip(n as int));
                lemma_encode_concat(h@, t@.skip(n as int));
                assert(false);
            }
        }
        Ok(text)
    }
}

/// `path` as text, with the home directory at its start replaced by `~`
/// where the path is that directory or lies below it. A path that is not
/// valid Unicode gives `PathNotUnicode`; otherwise the home directory is
/// looked up, and what `condense_found` makes of the lookup is returned.
pub fn condense_path(path: SystemPath) -> (r: Result<String, ShellError>)
    ensures
        path.text is None ==> r == Err::<String, ShellError>(ShellError::PathNotUnicode),
        path.text matches Some(t) ==> (r matches Ok(s) ==> exists|home: Seq<char>|
            s@ == condensed(t@, home)),
        path.text is Some ==> (r matches Err(e) ==> e == ShellError::HomeNotFound || e
            == ShellError::HomeNotUnicode),
{
    match path.text {
        None => Err(ShellError::PathNotUnicode),
        Some(text) => condense_found(text, get_home_directory()),
    }
}

/// The prompt: the user name and the current directory in the prompt's
/// color, as `user@host dir> `.
pub open spec fn prompt_text(code: Seq<char>, user: Seq<char>, host: Seq<char>, dir: Seq<char>) -> Seq<char> {
    code + user + "\x1b[0m"@ + "@"@ + host + " "@ + code + dir + "\x1b[0m"@ + "> "@
}

/// Formats the prompt from the color's escape sequence, the user and host
/// names and the current directory.
pub fn format_prompt(code: &str, user: &str, host: &str, dir: &str) -> (r: String)
    ensures
        r@ == prompt_text(code@, user@, host@, dir@),
{
    let mut r = code.to_owned();
    r.append(user);
    r.append("\x1b[0m");
    r.append("@");
    r.append(host);
    r.append(" ");
    r.append(code);
    r.append(dir);
    r.append("\x1b[0m");
    r.append("> ");
    r
}

/// Where the fields of a prompt stand: after the color's escape sequence
/// `code` comes the user name, then the reset sequence and `@`, then the
/// host name and a space, then `code` again and the directory.
pub proof fn lemma_prompt_layout(code: Seq<char>, user: Seq<char>, host: Seq<char>, dir: Seq<char>)
    ensures
        ({
            let p = prompt_text(code, user, host, dir);
            let k: int = (code.len() + user.len()) as int;
            let j: int = k + 5 + host.len();
            &&& p.len() == j + 1 + code.len() + dir.len() + 6
            &&& forall|i: int| 0 <= i < code.len() ==> p[i] == code[i]
            &&& forall|i: int| code.len() <= i < k ==> p[i] == user[i - code.len()]
            &&& forall|i: int| k <= i < k + 4 ==> p[i] != '@' && p[i] != ' '
            &&& p[k + 4] == '@'
            &&& forall|i: int| k + 5 <= i < j ==> p[i] == host[i - k - 5]
            &&& p[j] == ' '
            &&& forall|i: int| 0 <= i < dir.len() ==> p[j + 1 + code.len() + i] == dir[i]
        }),
{
    reveal_strlit("\x1b[0m");
    reveal_strlit("@");
    reveal_strlit(" ");
    reveal_strlit("> ");
    let r = "\x1b[0m"@;
    let p1 = code + user;
    let p2 = p1 + r;
    let p3 = p2 + "@"@;
    let p4 = p3 + host;
    let p5 = p4 + " "@;
    let p6 = p5 + code;
    let p7 = p6 + dir;
    let p8 = p7 + r;
    let p = p8 + "> "@;
    assert(p == prompt_text(code, user, host, dir));
    let k: int = (code.len() + user.len()) as int;
    let j: int = k + 5 + host.len();
    assert(r.len() == 4 && r[0] == '\x1b' && r[1] == '[' && r[2] == '0' && r[3] == 'm');
    assert forall|i: int| 0 <= i < code.len() implies p[i] == code[i] by {
        assert(p[i] == p1[i]);
    }
    assert forall|i: int| code.len() <= i < k implies p[i] == user[i - code.len()] by {
        assert(p[i] == p1[i]);
    }
    assert forall|i: int| k <= i < k + 4 implies p[i] != '@' && p[i] != ' ' by {
        assert(p[i] == p2[i]);
        assert(p2[i] == r[i - k]);
    }
    assert(p[k + 4] == p3[k + 4]);
    assert forall|i: int| k + 5 <= i < j implies p[i] == host[i - k - 5] by {
        assert(p[i] == p4[i]);
    }
    assert(p[j] == p5[j]);
    assert forall|i: int| 0 <= i < dir.len() implies p[j + 1 + code.len() + i] == dir[i] by {
        assert(p[j + 1 + code.len() + i] == p7[j + 1 + code.len() + i]);
    }
}

/// A prompt names its user and its host apart: two prompts in one color
/// that read the same have the same user name, the same host name and the
/// same directory, where no user name holds `@` and no host name a space.
/// So the name before `@` is the user's and the name after it the host's.
pub proof fn law_prompt_fields(
    code: Seq<char>,
    user1: Seq<char>,
    host1: Seq<char>,
    dir1: Seq<char>,
    user2: Seq<char>,
    host2: Seq<char>,
    dir2: Seq<char>,
)
    requires
        !user1.contains('@'),
        !user2.contains('@'),
        !host1.contains(' '),
        !host2.contains(' '),
        prompt_text(code, user1, host1, dir1) == prompt_text(code, user2, host2, dir2),
    ensures
        user1 == user2,
        host1 == host2,
        dir1 == dir2,
{
    lemma_prompt_layout(code, user1, host1, dir1);
    lemma_prompt_layout(code, user2, host2, dir2);
    let p = prompt_text(code, user1, host1, dir1);
    let k1: int = (code.len() + user1.len()) as int;
    let k2: int = (code.len() + user2.len()) as int;
    if k1 < k2 {
        assert(p[k1 + 4] == '@');
        if k1 + 4 < k2 {
            assert(p[k1 + 4] == user2[k1 + 4 - code.len()]);
            assert(user2.contains(user2[k1 + 4 - code.len()]));
        }
    }
    if k2 < k1 {
        assert(p[k2 + 4] == '@');
        if k2 + 4 < k1 {
            assert(p[k2 + 4] == user1[k2 + 4 - code.len()]);
            assert(user1.contains(user1[k2 + 4 - code.len()]));
        }
    }
    assert(user1.len() == user2.len());
    assert forall|i: int| 0 <= i < user1.len() implies user1[i] == user2[i] by {
        assert(p[code.len() + i] == user1[i]);
    }
    assert(user1 =~= user2);
    let j1: int = k1 + 5 + host1.len();
    let j2: int = k1 + 5 + host2.len();
    if j1 < j2 {
        assert(p[j1] == ' ');
        assert(p[j1] == host2[j1 - k1 - 5]);
        assert(host2.contains(host2[j1 - k1 - 5]));
    }
    if j2 < j1 {
        assert(p[j2] == ' ');
        assert(p[j2] == host1[j2 - k1 - 5]);
        assert(host1.contains(host1[j2 - k1 - 5]));
    }
    assert(host1.len() == host2.len());
    assert forall|i: int| 0 <= i < host1.len() implies host1[i] == host2[i] by {
        assert(p[k1 + 5 + i] == host1[i]);
    }
    assert(host1 =~= host2);
    assert(dir1.len() == dir2.len());
    assert forall|i: int| 0 <= i < dir1.len() implies dir1[i] == dir2[i] by {
        assert(p[j1 + 1 + code.len() + i] == dir1[i]);
    }
    assert(dir1 =~= dir2);
}

/// A looked-up name as the prompt shows it: the name, or `ERROR` where the
/// lookup failed.
pub open spec fn or_error(found: Option<String>) -> Seq<char> {
    match found {
        Some(s) => s@,
        None => "ERROR"@,
    }
}

/// The current directory as the prompt shows it: its condensed text, or
/// `ERROR` where the directory could not be found or condensed.
pub open spec fn shown_directory(dir: Option<Result<String, ShellError>>) -> Seq<char> {
    match dir {
        Some(Ok(d)) => d@,
        _ => "ERROR"@,
    }
}

/// Builds the prompt in the named color from what the lookups gave: the
/// user name, the host name, and the current directory as condensed (`None`
/// where no current directory was found).
pub fn prompt_from(
    color: &str,
    user: Option<String>,
    host: Option<String>,
    dir: Option<Result<String, ShellError>>,
) -> (r: String)
    ensures
        r@ == prompt_text(color_code(color@), or_error(user), or_error(host), shown_directory(dir)),
{
    let code = prompt_color(Some(color));
    let user = match user {
        Some(u) => u,
        None => "ERROR".to_owned(),
    };
    let host = match host {
        Some(h) => h,
        None => "ERROR".to_owned(),
    };
    let dir = match dir {
        Some(Ok(d)) => d,
        _ => "ERROR".to_owned(),
    };
    format_prompt(code.as_str(), user.as_str(), host.as_str(), dir.as_str())
}

/// Builds the shell's prompt in the named color, for the current directory
/// `current_dir` (`None` where the caller could not find it): looks up the
/// user and host names and condenses the directory, and returns what
/// `prompt_from` makes of those results.
pub fn build_shell_prompt(color: &str, current_dir: Option<SystemPath>) -> (r: String)
    ensures
        exists|user: Option<String>, host: Option<String>, dir: Option<Result<String, ShellError>>|
            r@ == prompt_text(color_code(color@), or_error(user), or_error(host), shown_directory(dir))
            && (current_dir is None ==> dir is None) && (current_dir matches Some(p) ==> (
            dir matches Some(d) && (p.text is None ==> d == Err::<String, ShellError>(
                ShellError::PathNotUnicode,
            )) && (p.text matches Some(t) ==> (d matches Ok(s) ==> exists|home: Seq<char>|
                s@ == condensed(t@, home))))),
{
    let user = username();
    let host = hostname();
    let dir = match current_dir {
        Some(p) => Some(condense_path(p)),
        None => None,
    };
    prompt_from(color, user, host, dir)
}

/// The views of a sequence of string slices.
pub open spec fn str_views(v: Seq<&str>) -> Seq<Seq<char>> {
    v.map_values(|s: &str| s@)
}

/// What the shell is to do with a line of arguments.
pub enum CommandPlan {
    /// There are no arguments.
    Nothing,
    /// No home directory is known, so no argument can be expanded.
    HomeUnavailable,
    /// The arguments hold `|`: run them as a pipe.
    Pipe(Vec<String>),
    /// The arguments hold `&&`: run them as a chain.
    Chain(Vec<String>),
    /// `exit`: leave the shell.
    Exit,
    /// `help`: print the help text.
    Help,
    /// `cd`: change to this directory.
    ChangeDirectory(String),
    /// `warlock_gen_config`: create the configuration file.
    GenerateConfig,
    /// `clear`: clear the screen.
    Clear,
    /// `type`: report what kind of command this word is.
    Type(String),
    /// Not a builtin command: run it as a program.
    External,
}

/// `CommandPlan` over character sequences.
pub enum PlanView {
    Nothing,
    HomeUnavailable,
    Pipe(Seq<Seq<char>>),
    Chain(Seq<Seq<char>>),
    Exit,
    Help,
    ChangeDirectory(Seq<char>),
    GenerateConfig,
    Clear,
    Type(Seq<char>),
    External,
}

impl View for CommandPlan {
    type V = PlanView;

    open spec fn view(&self) -> PlanView {
        match self {
            CommandPlan::Nothing => PlanView::Nothing,
            CommandPlan::HomeUnavailable => PlanView::HomeUnavailable,
            CommandPlan::Pipe(a) => PlanView::Pipe(views(a@)),
            CommandPlan::Chain(a) => PlanView::Chain(views(a@)),
            CommandPlan::Exit => PlanView::Exit,
            CommandPlan::Help => PlanView::Help,
            CommandPlan::ChangeDirectory(d) => PlanView::ChangeDirectory(d@),
            CommandPlan::GenerateConfig => PlanView::GenerateConfig,
            CommandPlan::Clear => PlanView::Clear,
            CommandPlan::Type(w) => PlanView::Type(w@),
            CommandPlan::External => PlanView::External,
        }
    }
}

/// What the shell does with the arguments `args`, with `home` as the home
/// directory. Each argument has its leading `~` expanded first. Arguments
/// holding `|` form a pipe, else arguments holding `&&` a chain; otherwise
/// the first argument selects a builtin command, and any other is a program.
/// `cd` alone changes to the home directory; `type` asks about the word that
/// follows it, or about itself when none does.
pub open spec fn plan_for(args: Seq<Seq<char>>, home: Seq<char>) -> PlanView {
    let e = args.map_values(|a: Seq<char>| tilde_expansion(a, home));
    if e.len() == 0 {
        PlanView::Nothing
    } else if e.contains("|"@) {
        PlanView::Pipe(e)
    } else if e.contains("&&"@) {
        PlanView::Chain(e)
    } else if e[0] == "exit"@ {
        PlanView::Exit
    } else if e[0] == "help"@ {
        PlanView::Help
    } else if e[0] == "cd"@ {
        PlanView::ChangeDirectory(if e.len() == 1 { home } else { e[1] })
    } else if e[0] == "warlock_gen_config"@ {
        PlanView::GenerateConfig
    } else if e[0] == "clear"@ {
        PlanView::Clear
    } else if e[0] == "type"@ {
        PlanView::Type(if e.len() == 1 { e[0] } else { e[1] })
    } else {
        PlanView::External
    }
}

/// The code that a plan reports: 255 to leave the shell, 0 where the line
/// is not a builtin command and is to be run as a program, and 1 where the
/// shell itself handles the line: a builtin command, a pipe, a chain, or
/// nothing to do.
pub open spec fn plan_code(plan: PlanView) -> i32 {
    match plan {
        PlanView::Exit => 255,
        PlanView::External => 0,
        _ => 1,
    }
}

impl CommandPlan {
    /// The code of the plan, as `plan_code` gives it.
    pub fn code(&self) -> (r: i32)
        ensures
            r == plan_code(self@),
    {
        match self {
            CommandPlan::Exit => 255,
            CommandPlan::External => 0,
            _ => 1,
        }
    }
}

/// Whether `word` is one of `words`.
pub fn contains_word(words: &Vec<String>, word: &str) -> (r: bool)
    ensures
        r == views(words@).contains(word@),
{
    let n = words.len();
    let mut i: usize = 0;
    while i < n
        invariant
            n == words@.len(),
            i <= n,
            forall|k: int| 0 <= k < i ==> words@[k]@ != word@,
        decreases n - i,
    {
        if str_eq(words[i].as_str(), word) {
            assert(views(words@)[i as int] == word@);
            return true;
        }
        i = i + 1;
    }
    assert forall|k: int| 0 <= k < views(words@).len() implies views(words@)[k] != word@ by {
        assert(views(words@)[k] == words@[k]@);
    }
    false
}

/// Plans the arguments `args` with `home` as the home directory.
pub fn plan_with_home(args: &Vec<&str>, home: &str) -> (plan: CommandPlan)
    ensures
        plan@ == plan_for(str_views(args@), home@),
{
    let ghost e = str_views(args@).map_values(|a: Seq<char>| tilde_expansion(a, home@));
    let n = args.len();
    let mut expanded: Vec<String> = Vec::new();
    let mut i: usize = 0;
    while i < n
        invariant
            n == args@.len(),
            i <= n,
            e.len() == n,
            views(expanded@) =~= e.take(i as int),
            forall|k: int| 0 <= k < n ==> #[trigger] e[k] == tilde_expansion(args@[k]@, home@),
        decreases n - i,
    {
        let x = expand_tilde_with(args[i], home);
        let ghost before = expanded@;
        expanded.push(x);
        proof {
            assert(e[i as int] == tilde_expansion(args@[i as int]@, home@));
            assert(expanded@ =~= before.push(x));
            assert(views(expanded@) =~= views(before).push(x@));
            assert(e.take(i + 1) =~= e.take(i as int).push(e[i as int]));
        }
        i = i + 1;
    }
    assert(views(expanded@) =~= e);
    if n == 0 {
        return CommandPlan::Nothing;
    }
    if contains_word(&expanded, "|") {
        return CommandPlan::Pipe(expanded);
    }
    if contains_word(&expanded, "&&") {
        return CommandPlan::Chain(expanded);
    }
    let first: &str = expanded[0].as_str();
    assert(first@ == e[0]);
    if str_eq(first, "exit") {
        CommandPlan::Exit
    } else if str_eq(first, "help") {
        CommandPlan::Help
    } else if str_eq(first, "cd") {
        if n == 1 {
            CommandPlan::ChangeDirectory(home.to_owned())
        } else {
            assert(expanded@[1]@ == e[1]);
            CommandPlan::ChangeDirectory(expanded[1].clone())
        }
    } else if str_eq(first, "warlock_gen_config") {
        CommandPlan::GenerateConfig
    } else if str_eq(first, "clear") {
        CommandPlan::Clear
    } else if str_eq(first, "type") {
        if n == 1 {
            CommandPlan::Type(expanded[0].clone())
        } else {
            assert(expanded@[1]@ == e[1]);
            CommandPlan::Type(expanded[1].clone())
        }
    } else {
        CommandPlan::External
    }
}

/// Plans a line of arguments given what the lookup of the home directory
/// gave: nothing for no arguments; where the lookup failed,
/// `HomeUnavailable`; otherwise what `plan_with_home` gives.
pub fn plan_found(arg_list: &Vec<&str>, home: Result<String, ShellError>) -> (plan: CommandPlan)
    ensures
        arg_list@.len() == 0 ==> plan@ == PlanView::Nothing,
        arg_list@.len() > 0 ==> match home {
            Ok(h) => plan@ == plan_for(str_views(arg_list@), h@),
            Err(_) => plan@ == PlanView::HomeUnavailable,
        },
{
    if arg_list.len() == 0 {
        return CommandPlan::Nothing;
    }
    match home {
        Ok(h) => plan_with_home(arg_list, h.as_str()),
        Err(_) => CommandPlan::HomeUnavailable,
    }
}

/// Decides what the shell does with a line of arguments: nothing for no
/// arguments, without a lookup; otherwise what `plan_found` makes of the
/// lookup of the home directory.
pub fn parse_commands(arg_list: &Vec<&str>) -> (plan: CommandPlan)
    ensures
        arg_list@.len() == 0 ==> plan@ == PlanView::Nothing,
        arg_list@.len() > 0 ==> plan@ == PlanView::HomeUnavailable || exists|home: Seq<char>|
            plan@ == plan_for(str_views(arg_list@), home),
{
    if arg_list.len() == 0 {
        return CommandPlan::Nothing;
    }
    plan_found(arg_list, get_home_directory())
}

/// `cd` goes to the home directory `home` given to the plan: a bare `cd`
/// to `home` itself, `cd ~` and `cd ~/x` to `home` and `home/x`, and `cd`
/// with any other argument to that argument as written. (The home is taken
/// not to be the word `|` or `&&`, which would turn `cd ~` into a pipe or a
/// chain.)
pub proof fn law_plan_cd(args: Seq<Seq<char>>, home: Seq<char>)
    requires
        args.len() >= 1,
        args[0] == "cd"@,
        forall|i: int| 0 <= i < args.len() ==> #[trigger] args[i] != "|"@ && args[i] != "&&"@,
        home != "|"@,
        home != "&&"@,
    ensures
        args.len() == 1 ==> plan_for(args, home) == PlanView::ChangeDirectory(home),
        args.len() > 1 && args[1] == seq!['~'] ==> plan_for(args, home)
            == PlanView::ChangeDirectory(home),
        args.len() > 1 && args[1].len() > 1 && args[1][0] == '~' && args[1][1] == '/'
            ==> plan_for(args, home) == PlanView::ChangeDirectory(home + args[1].skip(1)),
        args.len() > 1 && !is_home_form(args[1]) ==> plan_for(args, home)
            == PlanView::ChangeDirectory(args[1]),
{
    reveal_strlit("cd");
    reveal_strlit("|");
    reveal_strlit("&&");
    reveal_strlit("exit");
    reveal_strlit("help");
    let e = args.map_values(|a: Seq<char>| tilde_expansion(a, home));
    assert forall|i: int| 0 <= i < e.len() implies e[i] != "|"@ && e[i] != "&&"@ by {
        let a = args[i];
        if is_home_form(a) {
            if a.len() > 1 {
                let x = home + a.skip(1);
                assert(x[home.len() as int] == '/');
                if x == "|"@ {
                    assert("|"@.len() == 1 && "|"@[0] == '|');
                    assert(home.len() == 0);
                    assert(x[0] == '|');
                }
                if x == "&&"@ {
                    assert("&&"@.len() == 2 && "&&"@[0] == '&' && "&&"@[1] == '&');
                    assert(home.len() <= 1);
                    assert(x[home.len() as int] == '&');
                }
            } else {
                assert(a.skip(1) =~= Seq::<char>::empty());
                assert(home + a.skip(1) =~= home);
            }
        }
    }
    assert(!e.contains("|"@));
    assert(!e.contains("&&"@));
    assert(e[0] == "cd"@);
    if args.len() > 1 && args[1] == seq!['~'] {
        assert(args[1].skip(1) =~= Seq::<char>::empty());
        assert(home + args[1].skip(1) =~= home);
    }
}

/// The names of the builtin commands.
pub open spec fn is_builtin_name(w: Seq<char>) -> bool {
    w == "exit"@ || w == "help"@ || w == "cd"@ || w == "warlock_gen_config"@ || w == "clear"@ || w
        == "type"@
}

/// Whether the shell itself handles the words `words`: there are none, they
/// hold a pipe or a chain, or the first names a builtin command.
pub open spec fn handled_by_shell(words: Seq<Seq<char>>) -> bool {
    words.len() == 0 || words.contains("|"@) || words.contains("&&"@) || is_builtin_name(words[0])
}

/// Whether the shell itself handles the words `words`, as
/// `handled_by_shell` says, without running anything.
pub fn is_handled_by_shell(words: &Vec<String>) -> (r: bool)
    ensures
        r == handled_by_shell(views(words@)),
{
    if words.len() == 0 || contains_word(words, "|") || contains_word(words, "&&") {
        return true;
    }
    let first: &str = words[0].as_str();
    assert(first@ == views(words@)[0]);
    str_eq(first, "exit") || str_eq(first, "help") || str_eq(first, "cd") || str_eq(
        first,
        "warlock_gen_config",
    ) || str_eq(first, "clear") || str_eq(first, "type")
}

/// The code is 0 exactly when the shell does not handle the line itself
/// and it is to run as a program; it is 255 exactly for `exit` outside a
/// pipe or chain; and it is 1 otherwise, pipes and chains included.
pub proof fn law_plan_code(args: Seq<Seq<char>>, home: Seq<char>)
    ensures
        ({
            let e = args.map_values(|a: Seq<char>| tilde_expansion(a, home));
            let code = plan_code(plan_for(args, home));
            &&& code == 0 <==> !handled_by_shell(e)
            &&& code == 255 <==> (args.len() > 0 && !e.contains("|"@) && !e.contains("&&"@) && e[0]
                == "exit"@)
            &&& code == 0 || code == 1 || code == 255
        }),
{
}

/// A word that is not `~` and does not start with `~/` is read the same
/// whatever the home directory: a line whose first word is such names the
/// same builtin command, or none, for every home directory.
pub proof fn law_plan_home_free(args: Seq<Seq<char>>, h1: Seq<char>, h2: Seq<char>)
    requires
        forall|i: int| 0 <= i < args.len() ==> !is_home_form(#[trigger] args[i]),
    ensures
        plan_for(args, h1) is Pipe ==> plan_for(args, h1) == plan_for(args, h2),
        plan_for(args, h1) is Chain ==> plan_for(args, h1) == plan_for(args, h2),
        plan_code(plan_for(args, h1)) == plan_code(plan_for(args, h2)),
{
    let e1 = args.map_values(|a: Seq<char>| tilde_expansion(a, h1));
    let e2 = args.map_values(|a: Seq<char>| tilde_expansion(a, h2));
    assert(e1 =~= args);
    assert(e2 =~= args);
}

/// What the shell's loop does after reading a line.
pub enum ShellStep {
    /// Read the next line.
    Continue,
    /// Leave the shell.
    Exit,
    /// Run these words as a program with its arguments.
    Run(Vec<String>),
}

/// What the shell does with the words `args` of a line once the command
/// parsing has reported `code`: read on after a builtin (1), leave on 255,
/// and otherwise run the words, or the words of the alias that the first
/// word names.
pub open spec fn step_for(code: i32, args: Seq<Seq<char>>, aliases: Map<Seq<char>, Seq<char>>) -> Option<Seq<Seq<char>>> {
    if code == 1 || code == 255 {
        None
    } else if aliases.dom().contains(args[0]) {
        Some(words(aliases[args[0]]))
    } else {
        Some(args)
    }
}

/// Decides the shell's next step for the words `args` of a line, the code
/// that the command parsing reported for them, and the aliases. A code other
/// than 1 and 255 comes only with words.
pub fn next_step(code: i32, args: &Vec<String>, aliases: &ConfigMap) -> (r: ShellStep)
    requires
        code == 1 || code == 255 || args@.len() > 0,
    ensures
        code == 1 ==> r is Continue,
        code == 255 ==> r is Exit,
        code != 1 && code != 255 ==> (r matches ShellStep::Run(w) && Some(views(w@)) == step_for(
            code,
            views(args@),
            aliases@,
        )),
{
    if code == 1 {
        return ShellStep::Continue;
    }
    if code == 255 {
        return ShellStep::Exit;
    }
    match aliases.get(args[0].as_str()) {
        Some(value) => ShellStep::Run(split_arguments(value.as_str())),
        None => {
            let all = slice_words(args, 0, args.len());
            assert(views(args@).subrange(0, args@.len() as int) =~= views(args@));
            ShellStep::Run(all)
        },
    }
}

/// The prompt color that the configuration sets, `green` where it sets
/// none.
pub fn prompt_color_setting(config: &ConfigMap) -> (r: String)
    ensures
        r@ == (if config@.dom().contains("prompt_color"@) {
            config@["prompt_color"@]
        } else {
            "green"@
        }),
{
    match config.get("prompt_color") {
        Some(v) => v.clone(),
        None => "green".to_owned(),
    }
}

} // verus!
