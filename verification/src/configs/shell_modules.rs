//! The prompt color, and the splitting of pipes and chains.
use vstd::prelude::*;

use crate::configs::config_map::{distinct, ConfigMap};
use crate::configs::{config_settings, line_meaning};
use crate::text::views;
use crate::error::ShellError;
use crate::text::{contains_str, find_char, find_from, has_sub, str_eq};
use vstd::string::*;

verus! {

/// The escape sequence that selects the named prompt color; green for a
/// name that is not one of the seven known colors.
pub open spec fn color_code(name: Seq<char>) -> Seq<char> {
    if name == "red"@ {
        "\x1b[31m"@
    } else if name == "green"@ {
        "\x1b[32m"@
    } else if name == "yellow"@ {
        "\x1b[33m"@
    } else if name == "blue"@ {
        "\x1b[34m"@
    } else if name == "purple"@ {
        "\x1b[35m"@
    } else if name == "cyan"@ {
        "\x1b[36m"@
    } else if name == "white"@ {
        "\x1b[37m"@
    } else {
        "\x1b[32m"@
    }
}

/// The escape sequence of the prompt color `c`, green when none is given.
pub fn prompt_color(c: Option<&str>) -> (r: String)
    ensures
        r@ == color_code(
            match c {
                Some(name) => name@,
                None => "green"@,
            },
        ),
{
    let color: &str = match c {
        Some(name) => name,
        None => "green",
    };
    if str_eq(color, "red") {
        "\x1b[31m".to_owned()
    } else if str_eq(color, "green") {
        "\x1b[32m".to_owned()
    } else if str_eq(color, "yellow") {
        "\x1b[33m".to_owned()
    } else if str_eq(color, "blue") {
        "\x1b[34m".to_owned()
    } else if str_eq(color, "purple") {
        "\x1b[35m".to_owned()
    } else if str_eq(color, "cyan") {
        "\x1b[36m".to_owned()
    } else if str_eq(color, "white") {
        "\x1b[37m".to_owned()
    } else {
        "\x1b[32m".to_owned()
    }
}

/// The first position at or after `i` where the word `w` stands in `ws`,
/// or the length of `ws`.
pub open spec fn word_from(ws: Seq<Seq<char>>, w: Seq<char>, i: int) -> int
    decreases ws.len() - i,
{
    if i >= ws.len() {
        ws.len() as int
    } else if ws[i] == w {
        i
    } else {
        word_from(ws, w, i + 1)
    }
}

/// `word_from` from the start lands on the first `w`, or on the end exactly
/// when `w` does not occur.
pub proof fn lemma_word_from(ws: Seq<Seq<char>>, w: Seq<char>, i: int)
    requires
        0 <= i <= ws.len(),
    ensures
        i <= word_from(ws, w, i) <= ws.len(),
        forall|k: int| i <= k < word_from(ws, w, i) ==> ws[k] != w,
        word_from(ws, w, i) < ws.len() ==> ws[word_from(ws, w, i)] == w,
    decreases ws.len() - i,
{
    if i < ws.len() && ws[i] != w {
        lemma_word_from(ws, w, i + 1);
    }
}

/// The position of the first `word` in `words`, or their number.
pub fn position_of(words: &Vec<String>, word: &str) -> (r: usize)
    ensures
        r == word_from(views(words@), word@, 0),
        r <= words@.len(),
{
    proof {
        lemma_word_from(views(words@), word@, 0);
    }
    let n = words.len();
    let mut i: usize = 0;
    while i < n
        invariant
            n == words@.len(),
            i <= n,
            word_from(views(words@), word@, 0) == word_from(views(words@), word@, i as int),
        decreases n - i,
    {
        assert(views(words@)[i as int] == words@[i as int]@);
        if str_eq(words[i].as_str(), word) {
            return i;
        }
        i = i + 1;
    }
    i
}

/// A copy of `words[from..to]`.
pub fn slice_words(words: &Vec<String>, from: usize, to: usize) -> (r: Vec<String>)
    requires
        from <= to <= words@.len(),
    ensures
        views(r@) == views(words@).subrange(from as int, to as int),
{
    let mut r: Vec<String> = Vec::new();
    let mut i: usize = from;
    while i < to
        invariant
            from <= i <= to,
            to <= words@.len(),
            views(r@) =~= views(words@).subrange(from as int, i as int),
        decreases to - i,
    {
        let ghost before = r@;
        r.push(words[i].clone());
        proof {
            assert(views(r@) =~= views(before).push(words@[i as int]@));
        }
        i = i + 1;
    }
    r
}

/// A program to run and the arguments to give it.
pub struct Invocation {
    pub program: String,
    pub args: Vec<String>,
}

/// The invocation that a non-empty list of words names: the first word is
/// the program, the others its arguments.
pub open spec fn invocation_of(inv: Invocation, words: Seq<Seq<char>>) -> bool {
    words.len() > 0 && inv.program@ == words[0] && views(inv.args@) == words.skip(1)
}

/// The invocation of the words `words`, which must not be empty.
pub fn invocation(words: &Vec<String>) -> (r: Invocation)
    requires
        words@.len() > 0,
    ensures
        invocation_of(r, views(words@)),
{
    let args = slice_words(words, 1, words.len());
    assert(views(words@).subrange(1, words@.len() as int) =~= views(words@).skip(1));
    Invocation { program: words[0].clone(), args }
}

/// Where a chain `a && b` splits: `None` without `&&`; otherwise the words
/// before the first `&&` and those after it, or an error where nothing
/// follows it or nothing comes before it.
pub open spec fn chain_split(words: Seq<Seq<char>>) -> Result<
    Option<(Seq<Seq<char>>, Seq<Seq<char>>)>,
    ShellError,
> {
    let i = word_from(words, "&&"@, 0);
    if i == words.len() {
        Ok(None)
    } else if i + 1 == words.len() {
        Err(ShellError::NothingAfterChain)
    } else if i == 0 {
        Err(ShellError::NothingBeforeChain)
    } else {
        Ok(Some((words.take(i), words.skip(i + 1))))
    }
}

/// A chain splits into the words before its first `&&`, which hold no
/// `&&`, and the words after it, neither side empty: put back together
/// around the `&&`, they are the words given.
pub proof fn law_chain_split(words: Seq<Seq<char>>)
    ensures
        chain_split(words) matches Ok(Some((l, r))) ==> {
            &&& words == l + seq!["&&"@] + r
            &&& !l.contains("&&"@)
            &&& l.len() > 0 && r.len() > 0
        },
        chain_split(words) == Ok::<Option<(Seq<Seq<char>>, Seq<Seq<char>>)>, ShellError>(None)
            <==> !words.contains("&&"@),
{
    lemma_word_from(words, "&&"@, 0);
    let i = word_from(words, "&&"@, 0);
    if i < words.len() {
        assert(words == words.take(i) + seq!["&&"@] + words.skip(i + 1));
        assert(words.contains("&&"@));
        if words.take(i).contains("&&"@) {
            let k = choose|k: int| 0 <= k < words.take(i).len() && words.take(i)[k] == "&&"@;
            assert(words[k] == "&&"@);
        }
    } else {
        if words.contains("&&"@) {
            let k = choose|k: int| 0 <= k < words.len() && words[k] == "&&"@;
            assert(words[k] != "&&"@);
        }
    }
}

/// How far the running of a chain `left && right` has come.
#[derive(Debug, Clone, Copy, PartialEq, Eq, Structural)]
pub enum ChainStage {
    /// Nothing has been done yet.
    Start,
    /// The left side is being handled as a line of the shell.
    AwaitLeftCode,
    /// The left side is running as a program.
    AwaitLeftResult,
    /// The right side is being handled as a line of the shell.
    AwaitRightCode,
    /// The right side is running as a program.
    AwaitRightResult,
    /// The chain is over.
    Done,
}

/// What the shell reports to a chain about the action it last asked for.
#[derive(Debug, Clone, Copy, PartialEq, Eq, Structural)]
pub enum ChainEvent {
    /// Nothing yet: the chain is to begin.
    Begin,
    /// The code that handling a side as a line of the shell gave: 0 where
    /// the side is not handled by the shell and is to run as a program.
    Code(i32),
    /// Whether the program that ran succeeded.
    Finished(bool),
}

/// What a chain asks the shell to do next.
pub enum ChainAction {
    /// Handle these words as a line of the shell, and report its code.
    Handle(Vec<String>),
    /// Run this program with its output captured, and report whether it
    /// succeeded.
    RunCaptured(Invocation),
    /// Run this program, and report when it has finished.
    Run(Invocation),
    /// The chain is over, with this outcome.
    Finish(Result<(), ShellError>),
}

/// `ChainAction` over character sequences; a program is given with its
/// arguments as one sequence of words.
pub enum ChainActionView {
    Handle(Seq<Seq<char>>),
    RunCaptured(Seq<Seq<char>>),
    Run(Seq<Seq<char>>),
    Finish(Result<(), ShellError>),
}

/// The words of an invocation: the program, then its arguments.
pub open spec fn invocation_words(inv: Invocation) -> Seq<Seq<char>> {
    seq![inv.program@] + views(inv.args@)
}

impl View for ChainAction {
    type V = ChainActionView;

    open spec fn view(&self) -> ChainActionView {
        match self {
            ChainAction::Handle(w) => ChainActionView::Handle(views(w@)),
            ChainAction::RunCaptured(inv) => ChainActionView::RunCaptured(invocation_words(*inv)),
            ChainAction::Run(inv) => ChainActionView::Run(invocation_words(*inv)),
            ChainAction::Finish(r) => ChainActionView::Finish(*r),
        }
    }
}

/// The action that a chain waits on in `stage`, asked again where an event
/// does not answer it.
pub open spec fn chain_pending(stage: ChainStage, l: Seq<Seq<char>>, r: Seq<Seq<char>>) -> ChainActionView {
    match stage {
        ChainStage::Start => ChainActionView::Handle(l),
        ChainStage::AwaitLeftCode => ChainActionView::Handle(l),
        ChainStage::AwaitLeftResult => ChainActionView::RunCaptured(l),
        ChainStage::AwaitRightCode => ChainActionView::Handle(r),
        ChainStage::AwaitRightResult => ChainActionView::Run(r),
        ChainStage::Done => ChainActionView::Finish(Ok(())),
    }
}

/// How a chain `l && r` goes on from `stage` on `event`: the left side is
/// handled by the shell first; where the shell does not handle it, it runs
/// as a program, and where that fails the chain ends with
/// `FirstCommandFailed`. Only then is the right side handled, and run as a
/// program where the shell does not handle it.
pub open spec fn chain_next(
    stage: ChainStage,
    event: ChainEvent,
    l: Seq<Seq<char>>,
    r: Seq<Seq<char>>,
) -> (ChainStage, ChainActionView) {
    match (stage, event) {
        (ChainStage::Start, _) => (ChainStage::AwaitLeftCode, ChainActionView::Handle(l)),
        (ChainStage::AwaitLeftCode, ChainEvent::Code(c)) => if c == 0 {
            (ChainStage::AwaitLeftResult, ChainActionView::RunCaptured(l))
        } else {
            (ChainStage::AwaitRightCode, ChainActionView::Handle(r))
        },
        (ChainStage::AwaitLeftResult, ChainEvent::Finished(ok)) => if ok {
            (ChainStage::AwaitRightCode, ChainActionView::Handle(r))
        } else {
            (ChainStage::Done, ChainActionView::Finish(Err(ShellError::FirstCommandFailed)))
        },
        (ChainStage::AwaitRightCode, ChainEvent::Code(c)) => if c == 0 {
            (ChainStage::AwaitRightResult, ChainActionView::Run(r))
        } else {
            (ChainStage::Done, ChainActionView::Finish(Ok(())))
        },
        (ChainStage::AwaitRightResult, ChainEvent::Finished(_)) => (
            ChainStage::Done,
            ChainActionView::Finish(Ok(())),
        ),
        (ChainStage::Done, _) => (ChainStage::Done, ChainActionView::Finish(Ok(()))),
        _ => (stage, chain_pending(stage, l, r)),
    }
}

/// A chain `left && right` being run, neither side empty.
pub struct Chain {
    left: Vec<String>,
    right: Vec<String>,
    stage: ChainStage,
}

impl Chain {
    /// The words before the `&&`.
    pub closed spec fn left_words(&self) -> Seq<Seq<char>> {
        views(self.left@)
    }

    /// The words after the `&&`.
    pub closed spec fn right_words(&self) -> Seq<Seq<char>> {
        views(self.right@)
    }

    /// How far the chain has come.
    pub closed spec fn stage(&self) -> ChainStage {
        self.stage
    }

    #[verifier::type_invariant]
    closed spec fn well_formed(&self) -> bool {
        self.left@.len() > 0 && self.right@.len() > 0
    }

    /// The words before the `&&`.
    pub fn left(&self) -> (r: &Vec<String>)
        ensures
            views(r@) == self.left_words(),
    {
        &self.left
    }

    /// The words after the `&&`.
    pub fn right(&self) -> (r: &Vec<String>)
        ensures
            views(r@) == self.right_words(),
    {
        &self.right
    }

    /// Goes on with the chain on `event`, as `chain_next` says.
    pub fn step(&mut self, event: ChainEvent) -> (a: ChainAction)
        ensures
            (final(self).stage(), a@) == chain_next(
                old(self).stage(),
                event,
                old(self).left_words(),
                old(self).right_words(),
            ),
            final(self).left_words() == old(self).left_words(),
            final(self).right_words() == old(self).right_words(),
    {
        proof {
            use_type_invariant(&*self);
        }
        let ghost l = self.left_words();
        let ghost r = self.right_words();
        let left_inv = invocation(&self.left);
        let right_inv = invocation(&self.right);
        proof {
            assert(invocation_words(left_inv) =~= l);
            assert(invocation_words(right_inv) =~= r);
        }
        let (next, action) = match (self.stage, event) {
            (ChainStage::Start, _) => (ChainStage::AwaitLeftCode, ChainAction::Handle(
                slice_words(&self.left, 0, self.left.len()),
            )),
            (ChainStage::AwaitLeftCode, ChainEvent::Code(c)) => if c == 0 {
                (ChainStage::AwaitLeftResult, ChainAction::RunCaptured(left_inv))
            } else {
                (ChainStage::AwaitRightCode, ChainAction::Handle(
                    slice_words(&self.right, 0, self.right.len()),
                ))
            },
            (ChainStage::AwaitLeftResult, ChainEvent::Finished(ok)) => if ok {
                (ChainStage::AwaitRightCode, ChainAction::Handle(
                    slice_words(&self.right, 0, self.right.len()),
                ))
            } else {
                (ChainStage::Done, ChainAction::Finish(Err(ShellError::FirstCommandFailed)))
            },
            (ChainStage::AwaitRightCode, ChainEvent::Code(c)) => if c == 0 {
                (ChainStage::AwaitRightResult, ChainAction::Run(right_inv))
            } else {
                (ChainStage::Done, ChainAction::Finish(Ok(())))
            },
            (ChainStage::AwaitRightResult, ChainEvent::Finished(_)) => (
                ChainStage::Done,
                ChainAction::Finish(Ok(())),
            ),
            (ChainStage::Done, _) => (ChainStage::Done, ChainAction::Finish(Ok(()))),
            (ChainStage::AwaitLeftCode, _) => (ChainStage::AwaitLeftCode, ChainAction::Handle(
                slice_words(&self.left, 0, self.left.len()),
            )),
            (ChainStage::AwaitLeftResult, _) => (
                ChainStage::AwaitLeftResult,
                ChainAction::RunCaptured(left_inv),
            ),
            (ChainStage::AwaitRightCode, _) => (ChainStage::AwaitRightCode, ChainAction::Handle(
                slice_words(&self.right, 0, self.right.len()),
            )),
            (ChainStage::AwaitRightResult, _) => (
                ChainStage::AwaitRightResult,
                ChainAction::Run(right_inv),
            ),
        };
        proof {
            assert(views(self.left@).subrange(0, self.left@.len() as int) =~= l);
            assert(views(self.right@).subrange(0, self.right@.len() as int) =~= r);
        }
        self.stage = next;
        action
    }
}

/// While a chain is still on its left side, it asks for nothing on its
/// right side unless the shell handled the left side itself (a code other
/// than 0), or the left side ran as a program and succeeded; a left program
/// that fails ends the chain with `FirstCommandFailed`.
pub proof fn law_chain_waits(stage: ChainStage, event: ChainEvent, l: Seq<Seq<char>>, r: Seq<Seq<char>>)
    requires
        stage == ChainStage::Start || stage == ChainStage::AwaitLeftCode || stage
            == ChainStage::AwaitLeftResult,
    ensures
        ({
            let (next, action) = chain_next(stage, event, l, r);
            &&& (action == ChainActionView::Handle(r) && r != l) ==> ((stage
                == ChainStage::AwaitLeftCode && (event matches ChainEvent::Code(c) && c != 0)) || (
            stage == ChainStage::AwaitLeftResult && event == ChainEvent::Finished(true)))
            &&& action != ChainActionView::Run(r)
            &&& (stage == ChainStage::AwaitLeftResult && event == ChainEvent::Finished(false))
                ==> next == ChainStage::Done && action == ChainActionView::Finish(
                Err(ShellError::FirstCommandFailed),
            )
        }),
{
}

/// A chain fails only when its left side ran as a program and failed, and
/// then with `FirstCommandFailed`; once its right side has run, whatever
/// that program's outcome, the chain is over and has succeeded.
pub proof fn law_chain_outcome(stage: ChainStage, event: ChainEvent, l: Seq<Seq<char>>, r: Seq<Seq<char>>)
    ensures
        chain_next(stage, event, l, r).1 matches ChainActionView::Finish(Err(e)) ==> stage
            == ChainStage::AwaitLeftResult && event == ChainEvent::Finished(false) && e
            == ShellError::FirstCommandFailed,
        stage == ChainStage::AwaitRightResult && event is Finished ==> chain_next(
            stage,
            event,
            l,
            r,
        ) == (ChainStage::Done, ChainActionView::Finish(Ok(()))),
{
}

/// The whole run of a chain `l && r` from its start, for each way its
/// sides go: both run as programs and the left one succeeds; the left one
/// fails; or the shell handles both sides itself.
pub proof fn law_chain_runs(l: Seq<Seq<char>>, r: Seq<Seq<char>>, right_ok: bool, c1: i32, c2: i32)
    requires
        c1 != 0,
        c2 != 0,
    ensures
        ({
            let (s1, a1) = chain_next(ChainStage::Start, ChainEvent::Begin, l, r);
            let (s2, a2) = chain_next(s1, ChainEvent::Code(0), l, r);
            let (s3, a3) = chain_next(s2, ChainEvent::Finished(true), l, r);
            let (s4, a4) = chain_next(s3, ChainEvent::Code(0), l, r);
            let (s5, a5) = chain_next(s4, ChainEvent::Finished(right_ok), l, r);
            &&& a1 == ChainActionView::Handle(l)
            &&& a2 == ChainActionView::RunCaptured(l)
            &&& a3 == ChainActionView::Handle(r)
            &&& a4 == ChainActionView::Run(r)
            &&& a5 == ChainActionView::Finish(Ok(())) && s5 == ChainStage::Done
        }),
        ({
            let (s1, a1) = chain_next(ChainStage::Start, ChainEvent::Begin, l, r);
            let (s2, a2) = chain_next(s1, ChainEvent::Code(0), l, r);
            let (s3, a3) = chain_next(s2, ChainEvent::Finished(false), l, r);
            a3 == ChainActionView::Finish(Err(ShellError::FirstCommandFailed)) && s3
                == ChainStage::Done
        }),
        ({
            let (s1, a1) = chain_next(ChainStage::Start, ChainEvent::Begin, l, r);
            let (s2, a2) = chain_next(s1, ChainEvent::Code(c1), l, r);
            let (s3, a3) = chain_next(s2, ChainEvent::Code(c2), l, r);
            &&& a2 == ChainActionView::Handle(r)
            &&& a3 == ChainActionView::Finish(Ok(())) && s3 == ChainStage::Done
        }),
{
}

/// Splits a chain `a && b` at its first `&&`, ready to run from its start.
pub fn split_chain(words: &Vec<String>) -> (r: Result<Option<Chain>, ShellError>)
    ensures
        match (r, chain_split(views(words@))) {
            (Ok(None), Ok(None)) => true,
            (Ok(Some(c)), Ok(Some((sa, sb)))) => c.left_words() == sa && c.right_words() == sb
                && c.stage() == ChainStage::Start,
            (Err(e), Err(se)) => e == se,
            _ => false,
        },
{
    let n = words.len();
    let i = position_of(words, "&&");
    if i == n {
        return Ok(None);
    }
    if i + 1 == n {
        return Err(ShellError::NothingAfterChain);
    }
    if i == 0 {
        return Err(ShellError::NothingBeforeChain);
    }
    let left = slice_words(words, 0, i);
    let right = slice_words(words, i + 1, n);
    assert(views(words@).subrange(0, i as int) =~= views(words@).take(i as int));
    assert(views(words@).subrange(i + 1, n as int) =~= views(words@).skip(i + 1));
    assert(views(left@).len() == left@.len());
    assert(views(right@).len() == right@.len());
    Ok(Some(Chain { left, right, stage: ChainStage::Start }))
}

/// Where a pipe `a | b` splits: `None` without `|`; otherwise the words
/// before the first `|` and those after it.
pub open spec fn pipe_split(words: Seq<Seq<char>>) -> Option<(Seq<Seq<char>>, Seq<Seq<char>>)> {
    let i = word_from(words, "|"@, 0);
    if i == words.len() {
        None
    } else {
        Some((words.take(i), words.skip(i + 1)))
    }
}

/// A pipe splits into the words before its first `|`, which hold no `|`,
/// and the words after it: put back together around the `|`, they are the
/// words given.
pub proof fn law_pipe_split(words: Seq<Seq<char>>)
    ensures
        pipe_split(words) matches Some((l, r)) ==> {
            &&& words == l + seq!["|"@] + r
            &&& !l.contains("|"@)
        },
        pipe_split(words) is None <==> !words.contains("|"@),
{
    lemma_word_from(words, "|"@, 0);
    let i = word_from(words, "|"@, 0);
    if i < words.len() {
        assert(words =~= words.take(i) + seq!["|"@] + words.skip(i + 1));
        assert(words.contains("|"@));
        if words.take(i).contains("|"@) {
            let k = choose|k: int| 0 <= k < words.take(i).len() && words.take(i)[k] == "|"@;
            assert(words[k] == "|"@);
        }
    } else {
        if words.contains("|"@) {
            let k = choose|k: int| 0 <= k < words.len() && words[k] == "|"@;
            assert(words[k] != "|"@);
        }
    }
}

/// Splits a pipe `a | b` at its first `|`.
pub fn split_pipe(words: &Vec<String>) -> (r: Option<(Vec<String>, Vec<String>)>)
    ensures
        match (r, pipe_split(views(words@))) {
            (None, None) => true,
            (Some((a, b)), Some((sa, sb))) => views(a@) == sa && views(b@) == sb,
            _ => false,
        },
{
    let n = words.len();
    let i = position_of(words, "|");
    if i == n {
        return None;
    }
    let left = slice_words(words, 0, i);
    let right = slice_words(words, i + 1, n);
    assert(views(words@).subrange(0, i as int) =~= views(words@).take(i as int));
    assert(views(words@).subrange(i + 1, n as int) =~= views(words@).skip(i + 1));
    Some((left, right))
}

/// Plans the pipe `left | right` as two programs, the output of the first
/// feeding the second. `left_code` is the code that handling the left side
/// as a line of the shell gave: a left side that the shell handles itself
/// (a code other than 0), or an empty one, cannot be piped; nor can nothing
/// after the `|`. The right side is run as a program whatever it is.
pub fn plan_pipe(left: &Vec<String>, right: &Vec<String>, left_code: i32) -> (r: Result<
    (Invocation, Invocation),
    ShellError,
>)
    ensures
        left@.len() == 0 || left_code != 0 ==> r == Err::<(Invocation, Invocation), ShellError>(
            ShellError::CouldNotParse,
        ),
        left@.len() > 0 && left_code == 0 && right@.len() == 0 ==> r == Err::<
            (Invocation, Invocation),
            ShellError,
        >(ShellError::NothingAfterPipe),
        left@.len() > 0 && left_code == 0 && right@.len() > 0 ==> (r matches Ok((a, b))
            && invocation_of(a, views(left@)) && invocation_of(b, views(right@))),
{
    if left.len() == 0 || left_code != 0 {
        return Err(ShellError::CouldNotParse);
    }
    if right.len() == 0 {
        return Err(ShellError::NothingAfterPipe);
    }
    let upstream = invocation(left);
    let downstream = invocation(right);
    Ok((upstream, downstream))
}

/// What a configuration key says of an alias.
pub enum AliasKey {
    /// The key does not hold `alias`.
    Plain,
    /// The key holds `alias` but no space: it is skipped with a warning.
    NoSpace,
    /// The key holds `alias`; the alias is named by what follows its first
    /// space.
    Name(Seq<char>),
}

/// What the configuration key `key` says of an alias.
pub open spec fn alias_key(key: Seq<char>) -> AliasKey {
    if !has_sub(key, "alias"@) {
        AliasKey::Plain
    } else if find_from(key, ' ', 0) == key.len() {
        AliasKey::NoSpace
    } else {
        AliasKey::Name(key.skip(find_from(key, ' ', 0) + 1))
    }
}

/// The aliases that configuration entries define, taken in order, a later
/// one overriding an earlier one with the same name.
pub open spec fn alias_map(ks: Seq<Seq<char>>, vs: Seq<Seq<char>>) -> Map<Seq<char>, Seq<char>>
    decreases ks.len(),
{
    if ks.len() == 0 || vs.len() == 0 {
        Map::empty()
    } else {
        let m = alias_map(ks.drop_last(), vs.drop_last());
        match alias_key(ks.last()) {
            AliasKey::Name(n) => m.insert(n, vs.last()),
            _ => m,
        }
    }
}

/// How many configuration keys hold `alias` but no space.
pub open spec fn alias_skips(ks: Seq<Seq<char>>) -> nat
    decreases ks.len(),
{
    if ks.len() == 0 {
        0
    } else {
        alias_skips(ks.drop_last()) + if alias_key(ks.last()) is NoSpace {
            1nat
        } else {
            0nat
        }
    }
}

/// The aliases that the configuration defines, and how many of its alias
/// keys were skipped for want of a space.
pub struct Aliases {
    pub aliases: ConfigMap,
    pub skipped: usize,
}

/// Reads the aliases of a configuration: each key that holds `alias` names,
/// by what follows its first space, an alias for the key's value. The keys
/// are taken in the order in which they were first set.
pub fn parse_aliases(config_map: &ConfigMap) -> (r: Aliases)
    ensures
        r.aliases@ == alias_map(config_map.key_seq(), config_map.value_seq()),
        r.skipped == alias_skips(config_map.key_seq()),
{
    let n = config_map.len();
    let mut aliases = ConfigMap::new();
    let mut skipped: usize = 0;
    let mut i: usize = 0;
    while i < n
        invariant
            n == config_map.key_seq().len(),
            n == config_map.value_seq().len(),
            i <= n,
            skipped <= i,
            aliases@ == alias_map(
                config_map.key_seq().take(i as int),
                config_map.value_seq().take(i as int),
            ),
            skipped == alias_skips(config_map.key_seq().take(i as int)),
        decreases n - i,
    {
        let ghost ks = config_map.key_seq();
        let ghost vs = config_map.value_seq();
        assert(ks.take(i + 1).drop_last() =~= ks.take(i as int));
        assert(vs.take(i + 1).drop_last() =~= vs.take(i as int));
        let key: &str = config_map.key_at(i).as_str();
        if contains_str(key, "alias") {
            let len = key.unicode_len();
            let sp = find_char(key, ' ', 0);
            if sp == len {
                skipped = skipped + 1;
            } else {
                let name = key.substring_char(sp + 1, len);
                assert(name@ =~= key@.skip(sp + 1));
                aliases.insert(name.to_owned(), config_map.value_at(i).clone());
            }
        }
        i = i + 1;
    }
    assert(config_map.key_seq().take(n as int) =~= config_map.key_seq());
    assert(config_map.value_seq().take(n as int) =~= config_map.value_seq());
    Aliases { aliases, skipped }
}

/// Every alias comes from a configuration entry whose key names it, and
/// has that entry's value; and every entry whose key names an alias puts
/// that name among the aliases.
pub proof fn law_alias_origin(ks: Seq<Seq<char>>, vs: Seq<Seq<char>>)
    requires
        ks.len() == vs.len(),
    ensures
        forall|n: Seq<char>| #[trigger]
            alias_map(ks, vs).dom().contains(n) ==> exists|i: int|
                0 <= i < ks.len() && alias_key(ks[i]) == AliasKey::Name(n) && alias_map(ks, vs)[n]
                    == vs[i],
        forall|i: int|
            0 <= i < ks.len() && #[trigger] alias_key(ks[i]) is Name ==> alias_map(
                ks,
                vs,
            ).dom().contains(alias_key(ks[i])->Name_0),
    decreases ks.len(),
{
    if ks.len() > 0 {
        let ks0 = ks.drop_last();
        let vs0 = vs.drop_last();
        law_alias_origin(ks0, vs0);
        let last = ks.len() - 1;
        assert forall|n: Seq<char>| #[trigger]
            alias_map(ks, vs).dom().contains(n) implies exists|i: int|
                0 <= i < ks.len() && alias_key(ks[i]) == AliasKey::Name(n) && alias_map(ks, vs)[n]
                    == vs[i] by {
            if alias_key(ks.last()) == AliasKey::Name(n) {
                assert(alias_map(ks, vs)[n] == vs[last]);
            } else {
                let i = choose|i: int|
                    0 <= i < ks0.len() && alias_key(ks0[i]) == AliasKey::Name(n) && alias_map(
                        ks0,
                        vs0,
                    )[n] == vs0[i];
                assert(ks[i] == ks0[i]);
                assert(vs[i] == vs0[i]);
            }
        }
        assert forall|i: int|
            0 <= i < ks.len() && #[trigger] alias_key(ks[i]) is Name implies alias_map(
                ks,
                vs,
            ).dom().contains(alias_key(ks[i])->Name_0) by {
            if i < last {
                assert(ks[i] == ks0[i]);
            }
        }
    }
}

/// The aliases read from a configuration map are those its settings name:
/// a name is an alias exactly when some key of the settings names it, and
/// where one key alone names it, the alias has that key's value. The
/// entries `ks`, `vs` and the map `m` stand to each other as a
/// `ConfigMap`'s entries and view do (what `ConfigMap::len` states).
pub proof fn law_aliases_of_settings(
    ks: Seq<Seq<char>>,
    vs: Seq<Seq<char>>,
    m: Map<Seq<char>, Seq<char>>,
)
    requires
        ks.len() == vs.len(),
        distinct(ks),
        forall|i: int| 0 <= i < ks.len() ==> #[trigger] m.dom().contains(ks[i]) && m[ks[i]] == vs[i],
        forall|k: Seq<char>| #[trigger] m.dom().contains(k) <==> ks.contains(k),
    ensures
        forall|n: Seq<char>| #[trigger]
            alias_map(ks, vs).dom().contains(n) <==> exists|k: Seq<char>|
                m.dom().contains(k) && #[trigger] alias_key(k) == AliasKey::Name(n),
        forall|k: Seq<char>|
            m.dom().contains(k) && #[trigger] alias_key(k) is Name && (forall|k2: Seq<char>|
                m.dom().contains(k2) && alias_key(k2) == alias_key(k) ==> k2 == k) ==> alias_map(
                ks,
                vs,
            ).dom().contains(alias_key(k)->Name_0) && alias_map(ks, vs)[alias_key(k)->Name_0]
                == m[k],
{
    law_alias_origin(ks, vs);
    assert forall|n: Seq<char>| #[trigger]
        alias_map(ks, vs).dom().contains(n) <==> exists|k: Seq<char>|
            m.dom().contains(k) && #[trigger] alias_key(k) == AliasKey::Name(n) by {
        if alias_map(ks, vs).dom().contains(n) {
            let i = choose|i: int|
                0 <= i < ks.len() && alias_key(ks[i]) == AliasKey::Name(n) && alias_map(ks, vs)[n]
                    == vs[i];
            assert(m.dom().contains(ks[i]));
        }
        if exists|k: Seq<char>| m.dom().contains(k) && #[trigger] alias_key(k) == AliasKey::Name(n) {
            let k = choose|k: Seq<char>|
                m.dom().contains(k) && #[trigger] alias_key(k) == AliasKey::Name(n);
            assert(ks.contains(k));
            let i = choose|i: int| 0 <= i < ks.len() && ks[i] == k;
            assert(alias_key(ks[i]) is Name);
        }
    }
    assert forall|k: Seq<char>|
        m.dom().contains(k) && #[trigger] alias_key(k) is Name && (forall|k2: Seq<char>|
            m.dom().contains(k2) && alias_key(k2) == alias_key(k) ==> k2 == k) implies alias_map(
        ks,
        vs,
    ).dom().contains(alias_key(k)->Name_0) && alias_map(ks, vs)[alias_key(k)->Name_0] == m[k] by {
        let n = alias_key(k)->Name_0;
        assert(ks.contains(k));
        let j = choose|j: int| 0 <= j < ks.len() && ks[j] == k;
        assert(alias_key(ks[j]) is Name);
        let i = choose|i: int|
            0 <= i < ks.len() && alias_key(ks[i]) == AliasKey::Name(n) && alias_map(ks, vs)[n]
                == vs[i];
        assert(m.dom().contains(ks[i]));
        assert(ks[i] == k);
    }
}

/// Read through: where the lines of a configuration file give a key `k`
/// (set by its last line `line`, as `k = v`) that names the alias `n`, and
/// no other key that they set names `n`, the aliases read from those
/// settings define `n` as `v`. The entries `ks`, `vs` are those of the
/// `ConfigMap` that `parse_config` returns for the lines, as
/// `ConfigMap::len` states them.
pub proof fn law_alias_line(
    lines: Seq<Seq<char>>,
    line: Seq<char>,
    ks: Seq<Seq<char>>,
    vs: Seq<Seq<char>>,
)
    requires
        ks.len() == vs.len(),
        distinct(ks),
        forall|i: int|
            0 <= i < ks.len() ==> #[trigger] config_settings(lines.push(line)).dom().contains(ks[i])
                && config_settings(lines.push(line))[ks[i]] == vs[i],
        forall|k: Seq<char>| #[trigger]
            config_settings(lines.push(line)).dom().contains(k) <==> ks.contains(k),
        line_meaning(line) is Entry,
        alias_key(line_meaning(line)->Entry_0) is Name,
        forall|k2: Seq<char>|
            config_settings(lines.push(line)).dom().contains(k2) && #[trigger] alias_key(k2)
                == alias_key(line_meaning(line)->Entry_0) ==> k2 == line_meaning(line)->Entry_0,
    ensures
        ({
            let n = alias_key(line_meaning(line)->Entry_0)->Name_0;
            alias_map(ks, vs).dom().contains(n) && alias_map(ks, vs)[n] == line_meaning(
                line,
            )->Entry_1
        }),
{
    let m = config_settings(lines.push(line));
    let k = line_meaning(line)->Entry_0;
    let v = line_meaning(line)->Entry_1;
    crate::configs::law_line_effect(lines, line);
    assert(m == config_settings(lines).insert(k, v));
    law_aliases_of_settings(ks, vs, m);
    assert(m.dom().contains(k));
    assert(alias_key(k) is Name);
}

} // verus!
