//! Character-level text operations on which the shell's parsing rests,
//! each with the sequence function that says what it computes.
use vstd::prelude::*;
use vstd::string::*;

verus! {

/// The characters with the Unicode `White_Space` property, the set that
/// `char::is_whitespace`, `str::trim` and `str::split_whitespace` use.
pub open spec fn is_space(c: char) -> bool {
    ||| ('\u{9}' <= c && c <= '\u{d}')
    ||| c == ' '
    ||| c == '\u{85}'
    ||| c == '\u{a0}'
    ||| c == '\u{1680}'
    ||| ('\u{2000}' <= c && c <= '\u{200a}')
    ||| c == '\u{2028}'
    ||| c == '\u{2029}'
    ||| c == '\u{202f}'
    ||| c == '\u{205f}'
    ||| c == '\u{3000}'
}

/// The views of a sequence of strings.
pub open spec fn views(v: Seq<String>) -> Seq<Seq<char>> {
    v.map_values(|s: String| s@)
}

/// Whether `c` is white space.
pub fn is_whitespace(c: char) -> (r: bool)
    ensures
        r == is_space(c),
{
    ('\u{9}' <= c && c <= '\u{d}') || c == ' ' || c == '\u{85}' || c == '\u{a0}' || c
        == '\u{1680}' || ('\u{2000}' <= c && c <= '\u{200a}') || c == '\u{2028}' || c
        == '\u{2029}' || c == '\u{202f}' || c == '\u{205f}' || c == '\u{3000}'
}

/// Whether two strings hold the same characters.
pub fn str_eq(a: &str, b: &str) -> (r: bool)
    ensures
        r == (a@ == b@),
{
    let n = a.unicode_len();
    if n != b.unicode_len() {
        return false;
    }
    let mut i: usize = 0;
    while i < n
        invariant
            n == a@.len(),
            n == b@.len(),
            i <= n,
            forall|k: int| 0 <= k < i ==> a@[k] == b@[k],
        decreases n - i,
    {
        if a.get_char(i) != b.get_char(i) {
            return false;
        }
        i = i + 1;
    }
    assert(a@ =~= b@);
    true
}

/// The first index at or after `i` that holds `c`, or the length of `s`
/// where there is none.
pub open spec fn find_from(s: Seq<char>, c: char, i: int) -> int
    decreases s.len() - i,
{
    if i >= s.len() {
        s.len() as int
    } else if s[i] == c {
        i
    } else {
        find_from(s, c, i + 1)
    }
}

/// `find_from` lands on the first `c` at or after `i`, or on the end.
pub proof fn lemma_find_from(s: Seq<char>, c: char, i: int)
    requires
        0 <= i <= s.len(),
    ensures
        i <= find_from(s, c, i) <= s.len(),
        forall|k: int| i <= k < find_from(s, c, i) ==> s[k] != c,
        find_from(s, c, i) < s.len() ==> s[find_from(s, c, i)] == c,
    decreases s.len() - i,
{
    if i < s.len() && s[i] != c {
        lemma_find_from(s, c, i + 1);
    }
}

/// Whether `c` occurs in `s`.
pub open spec fn has_char(s: Seq<char>, c: char) -> bool {
    exists|k: int| 0 <= k < s.len() && s[k] == c
}

/// `find_from` from the start reaches the end exactly when `c` is absent.
pub proof fn lemma_find_from_start(s: Seq<char>, c: char)
    ensures
        0 <= find_from(s, c, 0) <= s.len(),
        (find_from(s, c, 0) == s.len()) <==> !has_char(s, c),
        !has_char(s.take(find_from(s, c, 0)), c),
{
    lemma_find_from(s, c, 0);
    let i = find_from(s, c, 0);
    if i < s.len() {
        assert(s[i] == c);
    }
    assert forall|k: int| 0 <= k < s.take(i).len() implies s.take(i)[k] != c by {
        assert(s.take(i)[k] == s[k]);
    }
}

/// The first index at or after `from` where `c` stands in `s`, or the
/// length of `s`.
pub fn find_char(s: &str, c: char, from: usize) -> (r: usize)
    requires
        from <= s@.len(),
    ensures
        r == find_from(s@, c, from as int),
        from <= r <= s@.len(),
{
    proof {
        lemma_find_from(s@, c, from as int);
    }
    let n = s.unicode_len();
    let mut i: usize = from;
    while i < n
        invariant
            from <= i <= n,
            n == s@.len(),
            find_from(s@, c, from as int) == find_from(s@, c, i as int),
        decreases n - i,
    {
        if s.get_char(i) == c {
            return i;
        }
        i = i + 1;
    }
    i
}

/// The first index at or after `i` that does not hold white space, or the
/// length of `s`.
pub open spec fn skip_spaces(s: Seq<char>, i: int) -> int
    decreases s.len() - i,
{
    if i >= s.len() {
        s.len() as int
    } else if !is_space(s[i]) {
        i
    } else {
        skip_spaces(s, i + 1)
    }
}

/// The end of `s.subrange(lo, j)` once the white space at its end is cut.
pub open spec fn cut_spaces(s: Seq<char>, lo: int, j: int) -> int
    decreases j - lo,
{
    if j <= lo {
        j
    } else if !is_space(s[j - 1]) {
        j
    } else {
        cut_spaces(s, lo, j - 1)
    }
}

/// `s` without the white space at its start and at its end.
pub open spec fn trim_spec(s: Seq<char>) -> Seq<char> {
    let a = skip_spaces(s, 0);
    s.subrange(a, cut_spaces(s, a, s.len() as int))
}

pub proof fn lemma_skip_spaces(s: Seq<char>, i: int)
    requires
        0 <= i <= s.len(),
    ensures
        i <= skip_spaces(s, i) <= s.len(),
        forall|k: int| i <= k < skip_spaces(s, i) ==> is_space(s[k]),
        skip_spaces(s, i) < s.len() ==> !is_space(s[skip_spaces(s, i)]),
    decreases s.len() - i,
{
    if i < s.len() && is_space(s[i]) {
        lemma_skip_spaces(s, i + 1);
    }
}

pub proof fn lemma_cut_spaces(s: Seq<char>, lo: int, j: int)
    requires
        0 <= lo <= j <= s.len(),
    ensures
        lo <= cut_spaces(s, lo, j) <= j,
        forall|k: int| cut_spaces(s, lo, j) <= k < j ==> is_space(s[k]),
        cut_spaces(s, lo, j) > lo ==> !is_space(s[cut_spaces(s, lo, j) - 1]),
    decreases j - lo,
{
    if j > lo && is_space(s[j - 1]) {
        lemma_cut_spaces(s, lo, j - 1);
    }
}

/// A trimmed text neither starts nor ends with white space, and it is what
/// remains of `s` between white space at both ends.
pub proof fn lemma_trim(s: Seq<char>)
    ensures
        trim_spec(s).len() > 0 ==> !is_space(trim_spec(s)[0]) && !is_space(
            trim_spec(s)[trim_spec(s).len() - 1],
        ),
        exists|a: int, b: int|
            0 <= a <= b <= s.len() && trim_spec(s) == s.subrange(a, b) && (forall|k: int|
                0 <= k < a ==> is_space(#[trigger] s[k])) && (forall|k: int|
                b <= k < s.len() ==> is_space(#[trigger] s[k])),
{
    lemma_skip_spaces(s, 0);
    let a = skip_spaces(s, 0);
    lemma_cut_spaces(s, a, s.len() as int);
    let b = cut_spaces(s, a, s.len() as int);
    assert(trim_spec(s) == s.subrange(a, b));
}

/// `s` without white space at its start and end.
pub fn trim(s: &str) -> (r: &str)
    ensures
        r@ == trim_spec(s@),
{
    let n = s.unicode_len();
    let mut a: usize = 0;
    while a < n && is_whitespace(s.get_char(a))
        invariant
            a <= n,
            n == s@.len(),
            skip_spaces(s@, 0) == skip_spaces(s@, a as int),
        decreases n - a,
    {
        a = a + 1;
    }
    let mut b: usize = n;
    while b > a && is_whitespace(s.get_char(b - 1))
        invariant
            a <= b <= n,
            n == s@.len(),
            a == skip_spaces(s@, 0),
            cut_spaces(s@, a as int, n as int) == cut_spaces(s@, a as int, b as int),
        decreases b - a,
    {
        b = b - 1;
    }
    s.substring_char(a, b)
}

/// Whether `t` occurs in `s` as a run of consecutive characters.
pub open spec fn has_sub(s: Seq<char>, t: Seq<char>) -> bool {
    exists|i: int| 0 <= i && i + t.len() <= s.len() && #[trigger] s.subrange(i, i + t.len()) == t
}

/// Whether `t` occurs in `s`.
pub fn contains_str(s: &str, t: &str) -> (r: bool)
    ensures
        r == has_sub(s@, t@),
{
    let n = s.unicode_len();
    let m = t.unicode_len();
    if m > n {
        return false;
    }
    let last = n - m;
    let mut i: usize = 0;
    while i < last
        invariant
            n == s@.len(),
            m == t@.len(),
            last == n - m,
            i <= last,
            forall|j: int| 0 <= j < i ==> #[trigger] s@.subrange(j, j + m) != t@,
        decreases last - i,
    {
        if str_eq(s.substring_char(i, i + m), t) {
            return true;
        }
        i = i + 1;
    }
    if str_eq(s.substring_char(last, n), t) {
        assert(s@.subrange(last as int, last + m) == t@);
        return true;
    }
    assert forall|j: int| 0 <= j && j + t@.len() <= s@.len() implies #[trigger] s@.subrange(
        j,
        j + t@.len(),
    ) != t@ by {}
    false
}

/// The first index at or after `i` that holds white space, or the length
/// of `s`.
pub open spec fn word_end(s: Seq<char>, i: int) -> int
    decreases s.len() - i,
{
    if i >= s.len() {
        s.len() as int
    } else if is_space(s[i]) {
        i
    } else {
        word_end(s, i + 1)
    }
}

pub proof fn lemma_word_end(s: Seq<char>, i: int)
    requires
        0 <= i <= s.len(),
    ensures
        i <= word_end(s, i) <= s.len(),
        forall|k: int| i <= k < word_end(s, i) ==> !is_space(#[trigger] s[k]),
        word_end(s, i) < s.len() ==> is_space(s[word_end(s, i)]),
    decreases s.len() - i,
{
    if i < s.len() && !is_space(s[i]) {
        lemma_word_end(s, i + 1);
    }
}

/// The words of `s` from index `i` on: the maximal runs of characters that
/// are not white space, in order.
pub open spec fn words_from(s: Seq<char>, i: int) -> Seq<Seq<char>>
    decreases s.len() - i,
{
    if i < 0 || i >= s.len() {
        seq![]
    } else if is_space(s[i]) {
        words_from(s, i + 1)
    } else {
        let j = word_end(s, i + 1);
        proof {
            lemma_word_end(s, i + 1);
        }
        seq![s.subrange(i, j)] + words_from(s, j)
    }
}

/// The words of `s`, as `str::split_whitespace` yields them.
pub open spec fn words(s: Seq<char>) -> Seq<Seq<char>> {
    words_from(s, 0)
}

/// Splits `line` into its words.
pub fn split_arguments(line: &str) -> (r: Vec<String>)
    ensures
        views(r@) == words(line@),
{
    let n = line.unicode_len();
    let mut out: Vec<String> = Vec::new();
    let mut i: usize = 0;
    while i < n
        invariant
            n == line@.len(),
            i <= n,
            words(line@) == views(out@) + words_from(line@, i as int),
        decreases n - i,
    {
        if is_whitespace(line.get_char(i)) {
            i = i + 1;
        } else {
            let mut j: usize = i + 1;
            while j < n && !is_whitespace(line.get_char(j))
                invariant
                    n == line@.len(),
                    i < j <= n,
                    word_end(line@, i + 1) == word_end(line@, j as int),
                decreases n - j,
            {
                j = j + 1;
            }
            let ghost before = out@;
            let word = line.substring_char(i, j).to_owned();
            out.push(word);
            proof {
                assert(views(out@) =~= views(before).push(line@.subrange(i as int, j as int)));
                assert(words_from(line@, i as int) == seq![line@.subrange(i as int, j as int)]
                    + words_from(line@, j as int));
                assert(views(before) + words_from(line@, i as int) =~= views(out@) + words_from(
                    line@,
                    j as int,
                ));
            }
            i = j;
        }
    }
    assert(views(out@) + words_from(line@, n as int) =~= views(out@));
    out
}

/// Every word of a line is a non-empty run of characters none of which is
/// white space.
pub proof fn law_words_clean(s: Seq<char>, i: int)
    requires
        0 <= i,
    ensures
        forall|k: int|
            0 <= k < words_from(s, i).len() ==> #[trigger] words_from(s, i)[k].len() > 0 && (
            forall|m: int|
                0 <= m < words_from(s, i)[k].len() ==> !is_space(words_from(s, i)[k][m])),
    decreases s.len() - i,
{
    if i < s.len() {
        if is_space(s[i]) {
            law_words_clean(s, i + 1);
            assert(words_from(s, i) == words_from(s, i + 1));
        } else {
            let j = word_end(s, i + 1);
            lemma_word_end(s, i + 1);
            law_words_clean(s, j);
            let w = s.subrange(i, j);
            let rest = words_from(s, j);
            assert(words_from(s, i) == seq![w] + rest);
            assert forall|k: int| 0 <= k < words_from(s, i).len() implies #[trigger] words_from(
                s,
                i,
            )[k].len() > 0 && (forall|m: int|
                0 <= m < words_from(s, i)[k].len() ==> !is_space(words_from(s, i)[k][m])) by {
                if k == 0 {
                    assert(words_from(s, i)[k] == w);
                    assert forall|m: int| 0 <= m < w.len() implies !is_space(w[m]) by {
                        assert(w[m] == s[i + m]);
                    }
                } else {
                    assert(words_from(s, i)[k] == rest[k - 1]);
                }
            }
        }
    }
}

} // verus!
