//! Configuration of the shell: where the configuration file lives and how
//! its lines are read.
use vstd::prelude::*;
use vstd::string::*;

pub mod config_map;
pub mod shell_modules;


use crate::configs::config_map::ConfigMap;
use crate::error::ShellError;
use crate::get_home_directory;
use crate::text::{
    find_char,
    find_from,
    has_char,
    is_space,
    lemma_find_from,
    lemma_find_from_start,
    lemma_trim,
    trim,
    trim_spec,
    views,
};

verus! {

/// The text of a newly created configuration file.
pub const DEFAULT_CONFIG: &'static str = "# Welcome to the Warlock Shell!
# This is where you can configure the shell's behaviors.
# A full list of supported configs are available on the wiki.
";

/// Whether every line of `t` from index `i` on starts with `#`, where
/// `at_start` says whether index `i` starts a line.
pub open spec fn commented_from(t: Seq<char>, i: int, at_start: bool) -> bool
    decreases t.len() - i,
{
    if i >= t.len() {
        true
    } else if at_start {
        t[i] == '#' && commented_from(t, i + 1, false)
    } else {
        commented_from(t, i + 1, t[i] == '\n')
    }
}

/// The directory that holds the configuration file, for the home
/// directory `home`.
pub open spec fn config_dir_in(home: Seq<char>) -> Seq<char> {
    home + "/.config/warlock-shell"@
}

/// The configuration file, for the home directory `home`: `warlock.conf`
/// in the directory `config_dir_in(home)`.
pub open spec fn config_file_in(home: Seq<char>) -> Seq<char> {
    config_dir_in(home) + "/warlock.conf"@
}

/// The directory that holds the configuration file under `home`.
pub fn config_directory_in(home: &str) -> (r: String)
    ensures
        r@ == config_dir_in(home@),
{
    let mut dir = home.to_owned();
    dir.append("/.config/warlock-shell");
    dir
}

/// The configuration file under `home`.
pub fn config_path_in(home: &str) -> (r: String)
    ensures
        r@ == config_file_in(home@),
{
    let mut path = config_directory_in(home);
    path.append("/warlock.conf");
    path
}

/// The configuration file under a home directory `h` is
/// `h/.config/warlock-shell/warlock.conf`, and the directory it lies in is
/// `h/.config/warlock-shell`, which starts with `h`.
pub proof fn law_config_paths(h: Seq<char>)
    ensures
        config_file_in(h) == h + "/.config/warlock-shell/warlock.conf"@,
        config_dir_in(h) == h + "/.config/warlock-shell"@,
        config_file_in(h) == config_dir_in(h) + "/warlock.conf"@,
        config_dir_in(h).take(h.len() as int) == h,
{
    reveal_strlit("/.config/warlock-shell/warlock.conf");
    reveal_strlit("/.config/warlock-shell");
    reveal_strlit("/warlock.conf");
    assert("/.config/warlock-shell"@ + "/warlock.conf"@ =~= "/.config/warlock-shell/warlock.conf"@);
    assert(config_file_in(h) =~= h + "/.config/warlock-shell/warlock.conf"@);
    assert(config_dir_in(h).take(h.len() as int) =~= h);
}

/// The path of the configuration file, given what the lookup of the home
/// directory gave: the lookup's error, or `config_path_in` of the home.
pub fn config_path_found(home: Result<String, ShellError>) -> (r: Result<String, ShellError>)
    ensures
        match home {
            Ok(h) => r matches Ok(p) && p@ == config_file_in(h@),
            Err(e) => r == Err::<String, ShellError>(e),
        },
{
    match home {
        Ok(h) => Ok(config_path_in(h.as_str())),
        Err(e) => Err(e),
    }
}

/// The path of the configuration file: what `config_path_found` makes of
/// the lookup of the home directory.
pub fn get_config_path() -> (r: Result<String, ShellError>)
    ensures
        r matches Ok(p) ==> exists|home: Seq<char>| p@ == config_file_in(home),
        r matches Err(e) ==> e == ShellError::HomeNotFound || e == ShellError::HomeNotUnicode,
{
    config_path_found(get_home_directory())
}

/// Where the configuration lives: the file, and the directory that is its
/// parent.
pub struct ConfigLocation {
    pub directory: String,
    pub file: String,
}

/// Where the configuration lives, given what the lookup of the home
/// directory gave: the lookup's error, or the directory and file under the
/// home directory.
pub fn config_location_found(home: Result<String, ShellError>) -> (r: Result<ConfigLocation, ShellError>)
    ensures
        match home {
            Ok(h) => r matches Ok(l) && l.directory@ == config_dir_in(h@) && l.file@
                == config_file_in(h@),
            Err(e) => r matches Err(e2) && e2 == e,
        },
{
    match home {
        Ok(h) => {
            let directory = config_directory_in(h.as_str());
            let file = config_path_in(h.as_str());
            Ok(ConfigLocation { directory, file })
        },
        Err(e) => Err(e),
    }
}

/// Where the configuration lives, both found from one lookup of the home
/// directory, so that the directory is the file's parent: what
/// `config_location_found` makes of that lookup.
pub fn config_location() -> (r: Result<ConfigLocation, ShellError>)
    ensures
        r matches Ok(l) ==> exists|home: Seq<char>|
            l.directory@ == config_dir_in(home) && l.file@ == config_file_in(home),
        r matches Ok(l) ==> l.file@ == l.directory@ + "/warlock.conf"@,
        r matches Err(e) ==> e == ShellError::HomeNotFound || e == ShellError::HomeNotUnicode,
{
    config_location_found(get_home_directory())
}

/// The settings of the prompt.
pub struct ShellConfig {
    pub prompt_color: String,
    pub prompt_string_format: String,
}

impl ShellConfig {
    /// Builds the prompt settings from two arguments: the prompt color,
    /// then the prompt format.
    pub fn build(args: Vec<String>) -> (r: Result<ShellConfig, ShellError>)
        ensures
            args@.len() == 0 ==> (r matches Err(e) && e == ShellError::MissingPromptColor),
            args@.len() == 1 ==> (r matches Err(e) && e == ShellError::MissingPromptFormat),
            args@.len() >= 2 ==> (r matches Ok(c) && c.prompt_color@ == args@[0]@
                && c.prompt_string_format@ == args@[1]@),
    {
        if args.len() == 0 {
            return Err(ShellError::MissingPromptColor);
        }
        let prompt_color = args[0].clone();
        if args.len() == 1 {
            return Err(ShellError::MissingPromptFormat);
        }
        let prompt_string_format = args[1].clone();
        Ok(ShellConfig { prompt_color, prompt_string_format })
    }
}

/// What one line of the configuration file says.
pub enum ConfigLine {
    /// An empty line, or one that starts with `#`.
    Blank,
    /// A setting: `key = value`, both sides trimmed and not empty.
    Entry(String, String),
    /// A line without `=`, or with nothing on one of its sides.
    MissingKeyOrValue,
    /// A line with more than one `=`.
    TooManyEquals,
}

/// What one line of the configuration file says, over character sequences.
pub enum LineMeaning {
    Blank,
    Entry(Seq<char>, Seq<char>),
    MissingKeyOrValue,
    TooManyEquals,
}

impl View for ConfigLine {
    type V = LineMeaning;

    open spec fn view(&self) -> LineMeaning {
        match self {
            ConfigLine::Blank => LineMeaning::Blank,
            ConfigLine::Entry(k, v) => LineMeaning::Entry(k@, v@),
            ConfigLine::MissingKeyOrValue => LineMeaning::MissingKeyOrValue,
            ConfigLine::TooManyEquals => LineMeaning::TooManyEquals,
        }
    }
}

/// The part of a line before its first `#`.
pub open spec fn line_body(line: Seq<char>) -> Seq<char> {
    line.take(find_from(line, '#', 0))
}

/// The meaning of a line of the configuration file. A line that is empty
/// or starts with `#` is blank. Otherwise what stands before the first `#`
/// must hold exactly one `=`, and the trimmed texts on its two sides are the
/// key and the value, neither of which may be empty.
pub open spec fn line_meaning(line: Seq<char>) -> LineMeaning {
    if line.len() == 0 || line[0] == '#' {
        LineMeaning::Blank
    } else {
        let body = line_body(line);
        let eq = find_from(body, '=', 0);
        if eq == body.len() {
            LineMeaning::MissingKeyOrValue
        } else if find_from(body, '=', eq + 1) < body.len() {
            LineMeaning::TooManyEquals
        } else {
            let key = trim_spec(body.take(eq));
            let value = trim_spec(body.skip(eq + 1));
            if key.len() == 0 || value.len() == 0 {
                LineMeaning::MissingKeyOrValue
            } else {
                LineMeaning::Entry(key, value)
            }
        }
    }
}

/// Reads one line of the configuration file.
pub fn parse_config_line(line: &str) -> (r: ConfigLine)
    ensures
        r@ == line_meaning(line@),
{
    let n = line.unicode_len();
    if n == 0 || line.get_char(0) == '#' {
        return ConfigLine::Blank;
    }
    let hash = find_char(line, '#', 0);
    let body = line.substring_char(0, hash);
    assert(body@ =~= line_body(line@));
    let len = body.unicode_len();
    let eq = find_char(body, '=', 0);
    if eq == len {
        return ConfigLine::MissingKeyOrValue;
    }
    let next = find_char(body, '=', eq + 1);
    if next < len {
        return ConfigLine::TooManyEquals;
    }
    let left = body.substring_char(0, eq);
    let right = body.substring_char(eq + 1, len);
    assert(left@ =~= body@.take(eq as int));
    assert(right@ =~= body@.skip(eq + 1));
    let key = trim(left);
    let value = trim(right);
    if key.unicode_len() == 0 || value.unicode_len() == 0 {
        return ConfigLine::MissingKeyOrValue;
    }
    ConfigLine::Entry(key.to_owned(), value.to_owned())
}

/// A text that is not empty, neither starts nor ends with white space, and
/// holds neither `=` nor `#`.
pub open spec fn clean_text(t: Seq<char>) -> bool {
    &&& t.len() > 0
    &&& !is_space(t[0])
    &&& !is_space(t[t.len() - 1])
    &&& !has_char(t, '=')
    &&& !has_char(t, '#')
}

/// A setting that a line gives is a key and a value that are not empty,
/// neither starts nor ends with white space, and neither holds `=` or `#`.
pub proof fn lemma_entry_shape(line: Seq<char>)
    ensures
        line_meaning(line) matches LineMeaning::Entry(k, v) ==> clean_text(k) && clean_text(v),
{
    if line_meaning(line) is Entry {
        let body = line_body(line);
        lemma_find_from_start(line, '#');
        let eq = find_from(body, '=', 0);
        lemma_find_from_start(body, '=');
        lemma_find_from(body, '=', eq + 1);
        let left = body.take(eq);
        let right = body.skip(eq + 1);
        lemma_trim(left);
        lemma_trim(right);
        let k = trim_spec(left);
        let v = trim_spec(right);
        assert forall|i: int| 0 <= i < k.len() implies k[i] != '=' && k[i] != '#' by {
            let (a, b) = choose|a: int, b: int|
                0 <= a <= b <= left.len() && k == left.subrange(a, b) && (forall|j: int|
                    0 <= j < a ==> is_space(#[trigger] left[j])) && (forall|j: int|
                    b <= j < left.len() ==> is_space(#[trigger] left[j]));
            assert(k[i] == left[a + i]);
            assert(left[a + i] == body[a + i]);
            assert(body[a + i] == line[a + i]);
        }
        assert forall|i: int| 0 <= i < v.len() implies v[i] != '=' && v[i] != '#' by {
            let (a, b) = choose|a: int, b: int|
                0 <= a <= b <= right.len() && v == right.subrange(a, b) && (forall|j: int|
                    0 <= j < a ==> is_space(#[trigger] right[j])) && (forall|j: int|
                    b <= j < right.len() ==> is_space(#[trigger] right[j]));
            assert(v[i] == right[a + i]);
            assert(right[a + i] == body[eq + 1 + a + i]);
            assert(body[eq + 1 + a + i] == line[eq + 1 + a + i]);
        }
    }
}

/// A warning that the reading of the configuration file gives about a line
/// that it skips.
#[derive(Debug, Clone, Copy, PartialEq, Eq, Structural)]
pub enum ConfigWarning {
    MissingKeyOrValue,
    TooManyEquals,
}

impl ConfigWarning {
    /// The text that the shell prints for this warning.
    pub fn message(&self) -> (r: &'static str)
        ensures
            r@ == (match self {
                ConfigWarning::MissingKeyOrValue => "Either key or value is missing, skipping line."@,
                ConfigWarning::TooManyEquals => "Line has more than one equal sign, skipping line."@,
            }),
    {
        match self {
            ConfigWarning::MissingKeyOrValue => "Either key or value is missing, skipping line.",
            ConfigWarning::TooManyEquals => "Line has more than one equal sign, skipping line.",
        }
    }
}

/// The settings that a sequence of lines gives: each line's setting in
/// turn, a later one overriding an earlier one with the same key.
pub open spec fn config_settings(lines: Seq<Seq<char>>) -> Map<Seq<char>, Seq<char>>
    decreases lines.len(),
{
    if lines.len() == 0 {
        Map::empty()
    } else {
        let m = config_settings(lines.drop_last());
        match line_meaning(lines.last()) {
            LineMeaning::Entry(k, v) => m.insert(k, v),
            _ => m,
        }
    }
}

/// The warnings that a sequence of lines gives, one for each line that is
/// skipped for want of a key or value or for more than one `=`, in order.
pub open spec fn config_warnings(lines: Seq<Seq<char>>) -> Seq<ConfigWarning>
    decreases lines.len(),
{
    if lines.len() == 0 {
        Seq::empty()
    } else {
        let w = config_warnings(lines.drop_last());
        match line_meaning(lines.last()) {
            LineMeaning::MissingKeyOrValue => w.push(ConfigWarning::MissingKeyOrValue),
            LineMeaning::TooManyEquals => w.push(ConfigWarning::TooManyEquals),
            _ => w,
        }
    }
}

/// What the configuration file says: its settings, and the warnings about
/// the lines it skips.
pub struct ParsedConfig {
    pub settings: ConfigMap,
    pub warnings: Vec<ConfigWarning>,
}

/// Reads the lines of a configuration file.
pub fn parse_config(lines: &Vec<String>) -> (r: ParsedConfig)
    ensures
        r.settings@ == config_settings(views(lines@)),
        r.warnings@ == config_warnings(views(lines@)),
{
    let mut settings = ConfigMap::new();
    let mut warnings: Vec<ConfigWarning> = Vec::new();
    let n = lines.len();
    let mut i: usize = 0;
    while i < n
        invariant
            n == lines@.len(),
            i <= n,
            settings@ == config_settings(views(lines@).take(i as int)),
            warnings@ == config_warnings(views(lines@).take(i as int)),
        decreases n - i,
    {
        let ghost before = views(lines@).take(i as int);
        let ghost after = views(lines@).take(i + 1);
        assert(after.drop_last() =~= before);
        assert(after.last() == lines@[i as int]@);
        match parse_config_line(lines[i].as_str()) {
            ConfigLine::Entry(k, v) => {
                settings.insert(k, v);
            },
            ConfigLine::MissingKeyOrValue => {
                warnings.push(ConfigWarning::MissingKeyOrValue);
            },
            ConfigLine::TooManyEquals => {
                warnings.push(ConfigWarning::TooManyEquals);
            },
            ConfigLine::Blank => {},
        }
        i = i + 1;
    }
    assert(views(lines@).take(n as int) =~= views(lines@));
    ParsedConfig { settings, warnings }
}

/// Reading a file in two parts gives the settings of the first part,
/// overridden by those of the second, and the warnings of both in order.
pub proof fn law_config_concat(a: Seq<Seq<char>>, b: Seq<Seq<char>>)
    ensures
        config_settings(a + b) == config_settings(a).union_prefer_right(config_settings(b)),
        config_warnings(a + b) == config_warnings(a) + config_warnings(b),
    decreases b.len(),
{
    if b.len() == 0 {
        assert(a + b =~= a);
        assert(config_settings(a).union_prefer_right(config_settings(b)) =~= config_settings(a));
        assert(config_warnings(a) + config_warnings(b) =~= config_warnings(a));
    } else {
        let b0 = b.drop_last();
        law_config_concat(a, b0);
        assert((a + b).drop_last() =~= a + b0);
        assert((a + b).last() == b.last());
        match line_meaning(b.last()) {
            LineMeaning::Entry(k, v) => {
                assert(config_settings(a + b) =~= config_settings(a).union_prefer_right(
                    config_settings(b),
                ));
            },
            LineMeaning::MissingKeyOrValue => {
                assert(config_warnings(a + b) =~= config_warnings(a) + config_warnings(b));
            },
            LineMeaning::TooManyEquals => {
                assert(config_warnings(a + b) =~= config_warnings(a) + config_warnings(b));
            },
            LineMeaning::Blank => {},
        }
    }
}

/// Every setting read from a configuration file has a key and a value that
/// are not empty, neither start nor end with white space, and hold neither
/// `=` nor `#`.
pub proof fn law_settings_clean(lines: Seq<Seq<char>>)
    ensures
        forall|k: Seq<char>| #[trigger]
            config_settings(lines).dom().contains(k) ==> clean_text(k) && clean_text(
                config_settings(lines)[k],
            ),
    decreases lines.len(),
{
    if lines.len() > 0 {
        let prev = lines.drop_last();
        law_settings_clean(prev);
        lemma_entry_shape(lines.last());
        assert forall|k: Seq<char>| #[trigger]
            config_settings(lines).dom().contains(k) implies clean_text(k) && clean_text(
            config_settings(lines)[k],
        ) by {
            match line_meaning(lines.last()) {
                LineMeaning::Entry(k2, v2) => {
                    if k != k2 {
                        assert(config_settings(prev).dom().contains(k));
                    }
                },
                _ => {
                    assert(config_settings(prev).dom().contains(k));
                },
            }
        }
    }
}

/// A line whose meaning is no setting leaves the settings as they were, and
/// a line with a setting gives its key that value whatever came before.
pub proof fn law_line_effect(lines: Seq<Seq<char>>, line: Seq<char>)
    ensures
        line_meaning(line) matches LineMeaning::Entry(k, v) ==> config_settings(lines.push(line))
            == config_settings(lines).insert(k, v),
        !(line_meaning(line) is Entry) ==> config_settings(lines.push(line)) == config_settings(
            lines,
        ),
{
    assert(lines.push(line).drop_last() =~= lines);
}

/// A line without the `\r` that may end it.
pub open spec fn strip_cr(line: Seq<char>) -> Seq<char> {
    if line.len() > 0 && line.last() == '\r' {
        line.drop_last()
    } else {
        line
    }
}

/// The lines of the text `t`, as `BufRead::lines` yields them: the text is
/// cut at each `\n`, a `\r` before a cut is dropped, and a final `\n` ends
/// the last line rather than starting an empty one.
pub open spec fn text_lines(t: Seq<char>) -> Seq<Seq<char>>
    decreases t.len(),
{
    if t.len() == 0 {
        seq![]
    } else {
        let i = find_from(t, '\n', 0);
        proof {
            lemma_find_from(t, '\n', 0);
        }
        if i >= t.len() {
            seq![strip_cr(t)]
        } else {
            seq![strip_cr(t.take(i))] + text_lines(t.skip(i + 1))
        }
    }
}

proof fn lemma_commented_shift(t: Seq<char>, k: int, j: int, at_start: bool)
    requires
        0 <= k <= j,
        k <= t.len(),
    ensures
        commented_from(t, j, at_start) == commented_from(t.skip(k), j - k, at_start),
    decreases t.len() - j,
{
    if j < t.len() {
        if at_start {
            lemma_commented_shift(t, k, j + 1, false);
        } else {
            lemma_commented_shift(t, k, j + 1, t[j] == '\n');
        }
        assert(t.skip(k)[j - k] == t[j]);
    }
    assert(t.skip(k).len() == t.len() - k);
}

proof fn lemma_commented_walk(t: Seq<char>, j: int, i: int)
    requires
        1 <= j <= i < t.len(),
        t[i] == '\n',
        forall|k: int| j <= k < i ==> t[k] != '\n',
        commented_from(t, j, false),
    ensures
        commented_from(t, i + 1, true),
    decreases i - j,
{
    if j < i {
        lemma_commented_walk(t, j + 1, i);
    }
}

/// Where every line of a text starts with `#`, so does every line that
/// `text_lines` yields.
pub proof fn lemma_commented_lines(t: Seq<char>)
    requires
        commented_from(t, 0, true),
    ensures
        forall|k: int|
            0 <= k < text_lines(t).len() ==> #[trigger] text_lines(t)[k].len() > 0
                && text_lines(t)[k][0] == '#',
    decreases t.len(),
{
    if t.len() > 0 {
        lemma_find_from(t, '\n', 0);
        let i = find_from(t, '\n', 0);
        assert(t[0] == '#');
        let line = if i >= t.len() { t } else { t.take(i) };
        assert(line.len() > 0 && line[0] == '#');
        if line.len() > 1 {
            assert(strip_cr(line)[0] == '#');
        } else {
            assert(strip_cr(line) == line);
        }
        if i < t.len() {
            if i > 1 {
                lemma_commented_walk(t, 1, i);
            } else {
                assert(commented_from(t, 1, false));
            }
            lemma_commented_shift(t, i + 1, i + 1, true);
            assert(commented_from(t.skip(i + 1), 0, true));
            lemma_commented_lines(t.skip(i + 1));
            let rest = text_lines(t.skip(i + 1));
            assert forall|k: int|
                0 <= k < text_lines(t).len() implies #[trigger] text_lines(t)[k].len() > 0
                && text_lines(t)[k][0] == '#' by {
                if k > 0 {
                    assert(text_lines(t)[k] == rest[k - 1]);
                }
            }
        }
    }
}

/// Lines that all start with `#` set nothing and give no warning.
pub proof fn law_comment_lines(lines: Seq<Seq<char>>)
    requires
        forall|k: int| 0 <= k < lines.len() ==> #[trigger] lines[k].len() > 0 && lines[k][0] == '#',
    ensures
        config_settings(lines) == Map::<Seq<char>, Seq<char>>::empty(),
        config_warnings(lines) == Seq::<ConfigWarning>::empty(),
    decreases lines.len(),
{
    if lines.len() > 0 {
        law_comment_lines(lines.drop_last());
        assert(lines.last() == lines[lines.len() - 1]);
    }
}

/// The configuration file that the shell creates reads back as no settings
/// and no warnings: each of its lines is a comment.
pub proof fn law_default_config_reads_empty()
    ensures
        config_settings(text_lines(DEFAULT_CONFIG@)) == Map::<Seq<char>, Seq<char>>::empty(),
        config_warnings(text_lines(DEFAULT_CONFIG@)) == Seq::<ConfigWarning>::empty(),
{
    reveal_strlit("# Welcome to the Warlock Shell!
# This is where you can configure the shell's behaviors.
# A full list of supported configs are available on the wiki.
");
    assert(DEFAULT_CONFIG@.len() == 151);
    reveal_with_fuel(commented_from, 11);
    assert(commented_from(DEFAULT_CONFIG@, 150, false));
    assert(commented_from(DEFAULT_CONFIG@, 140, false));
    assert(commented_from(DEFAULT_CONFIG@, 130, false));
    assert(commented_from(DEFAULT_CONFIG@, 120, false));
    assert(commented_from(DEFAULT_CONFIG@, 110, false));
    assert(commented_from(DEFAULT_CONFIG@, 100, false));
    assert(commented_from(DEFAULT_CONFIG@, 90, false));
    assert(commented_from(DEFAULT_CONFIG@, 80, false));
    assert(commented_from(DEFAULT_CONFIG@, 70, false));
    assert(commented_from(DEFAULT_CONFIG@, 60, false));
    assert(commented_from(DEFAULT_CONFIG@, 50, false));
    assert(commented_from(DEFAULT_CONFIG@, 40, false));
    assert(commented_from(DEFAULT_CONFIG@, 30, false));
    assert(commented_from(DEFAULT_CONFIG@, 20, false));
    assert(commented_from(DEFAULT_CONFIG@, 10, false));
    assert(commented_from(DEFAULT_CONFIG@, 0, true));
    lemma_commented_lines(DEFAULT_CONFIG@);
    law_comment_lines(text_lines(DEFAULT_CONFIG@));
}

} // verus!
