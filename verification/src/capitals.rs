//! Capital letters at the start of each sentence.

use vstd::prelude::*;

use crate::annotations;
use crate::chars;
use crate::chars::{chars_of, string_of, uppercase_of};
use crate::words::push_all;

verus! {

/// Ends a sentence.
pub open spec fn is_terminator(c: char) -> bool {
    c == '.' || c == '!' || c == '?'
}

/// May stand between the end of a sentence and the first letter of the next: a space, or a
/// closing quote or bracket.
pub open spec fn is_between(c: char) -> bool {
    c == ' ' || c == '"' || c == '\'' || c == ')' || c == ']' || c == '\u{201d}' || c == '\u{2019}'
        || c == '\u{2026}'
}

/// Whether a sentence may start at `i`: nothing but spaces and closing marks stands between
/// there and the end of the sentence before, or the start of the text.
pub open spec fn at_sentence_start(s: Seq<char>, i: int) -> bool
    decreases i,
{
    if i <= 0 {
        true
    } else {
        is_terminator(s[i - 1]) || (is_between(s[i - 1]) && !chars::is_letter(s[i - 1])
            && at_sentence_start(s, i - 1))
    }
}

/// What stands for the character at `i`: its capital where it is the first letter of a
/// sentence, else itself.
pub open spec fn capital_at(s: Seq<char>, i: int) -> Seq<char> {
    if chars::is_letter(s[i]) && at_sentence_start(s, i) {
        chars::raised_char(s[i])
    } else {
        seq![s[i]]
    }
}

/// The first `n` characters, each as `capital_at` has it.
pub open spec fn capitals_to(s: Seq<char>, n: int) -> Seq<char>
    decreases n,
{
    if n <= 0 {
        seq![]
    } else {
        capitals_to(s, n - 1) + capital_at(s, n - 1)
    }
}

/// The text with the first letter of each sentence as a capital.
pub open spec fn capitalized(s: Seq<char>) -> Seq<char> {
    capitals_to(s, s.len() as int)
}

/// Capitalises the first letter, and the first letter after each sentence ending. Closing
/// quotes and brackets may stand in between; a digit or a comma may not.
pub fn capitalize_sentences(s: &str) -> (out: String)
    ensures
        out@ == capitalized(s@),
{
    let text: Vec<char> = chars_of(s);
    let mut out: Vec<char> = Vec::new();
    // The start of the text counts as the start of a sentence.
    let mut pending: bool = true;
    let mut i: usize = 0;
    while i < text.len()
        invariant
            text@ == s@,
            i <= text@.len(),
            pending == at_sentence_start(s@, i as int),
            out@ == capitals_to(s@, i as int),
        decreases text@.len() - i,
    {
        let c: char = text[i];
        let letter: bool = c.is_alphabetic();
        if pending && letter {
            let capital: Vec<char> = uppercase_of(c);
            push_all(&mut out, capital.as_slice());
            pending = false;
        } else {
            if c == '.' || c == '!' || c == '?' {
                pending = true;
            } else if letter || !(c == ' ' || c == '"' || c == '\'' || c == ')' || c == ']' || c
                == '\u{201d}' || c == '\u{2019}' || c == '\u{2026}') {
                // A letter, digit or comma: the middle of a sentence.
                pending = false;
            }
            out.push(c);
        }
        assert(out@ == capitals_to(s@, i as int) + capital_at(s@, i as int));
        i += 1;
    }
    string_of(out.as_slice())
}

/// A letter after a terminator and a space is a capital.
pub proof fn law_letter_after_sentence_end_is_raised(s: Seq<char>, i: int)
    requires
        2 <= i < s.len(),
        is_terminator(s[i - 2]),
        s[i - 1] == ' ',
        chars::is_letter(s[i]),
    ensures
        capital_at(s, i) == chars::raised_char(s[i]),
{
    assert(at_sentence_start(s, i - 1));
    assert(at_sentence_start(s, i));
}

/// A letter right after a letter, a digit or a comma is left as it is.
pub proof fn law_letter_inside_a_sentence_is_kept(s: Seq<char>, i: int)
    requires
        1 <= i < s.len(),
        !is_terminator(s[i - 1]),
        !is_between(s[i - 1]),
    ensures
        capital_at(s, i) == seq![s[i]],
{
}

/// What is no letter is left as it is.
pub proof fn law_only_letters_change(s: Seq<char>, i: int)
    requires
        0 <= i < s.len(),
        !chars::is_letter(s[i]),
    ensures
        capital_at(s, i) == seq![s[i]],
{
}

/// In an ASCII text every character keeps its place, and a letter at most its case.
pub proof fn lemma_ascii_capitals(s: Seq<char>, n: int)
    requires
        0 <= n <= s.len(),
        chars::is_ascii_text(s),
    ensures
        capitals_to(s, n).len() == n,
        forall|i: int|
            0 <= i < n ==> #[trigger] capitals_to(s, n)[i] == (if chars::is_letter(s[i])
                && at_sentence_start(s, i) {
                chars::ascii_raised(s[i])
            } else {
                s[i]
            }),
    decreases n,
{
    if n > 0 {
        lemma_ascii_capitals(s, n - 1);
        assert(chars::is_ascii_char(s[n - 1]));
        assert(capitals_to(s, n) == capitals_to(s, n - 1) + capital_at(s, n - 1));
        assert forall|i: int| 0 <= i < n implies #[trigger] capitals_to(s, n)[i] == (if chars::is_letter(
            s[i],
        ) && at_sentence_start(s, i) {
            chars::ascii_raised(s[i])
        } else {
            s[i]
        }) by {
            if i < n - 1 {
                assert(capitals_to(s, n)[i] == capitals_to(s, n - 1)[i]);
            }
        }
    }
}

/// Holds of a letter whose capital, which may be several characters, is steady: capitalising it
/// changes nothing, it does not end in the start of a sentence, and it holds no white space and
/// no bracket. The capital of every ASCII letter is.
pub open spec fn has_steady_capital(c: char) -> bool {
    let r = chars::raised_char(c);
    &&& capitalized(r) == r
    &&& !at_sentence_start(r, r.len() as int)
    &&& forall|k: int|
        0 <= k < r.len() ==> !chars::is_space(#[trigger] r[k]) && !annotations::bracket()(r[k])
}

/// Every sentence begins with such a letter, if it begins with a letter.
pub open spec fn has_steady_capitals(s: Seq<char>) -> bool {
    forall|i: int|
        0 <= i < s.len() && chars::is_letter(#[trigger] s[i]) && at_sentence_start(s, i)
            ==> has_steady_capital(s[i])
}

/// The capitals of an ASCII text are steady.
pub proof fn law_ascii_capitals_are_steady(s: Seq<char>)
    requires
        chars::is_ascii_text(s),
    ensures
        has_steady_capitals(s),
{
    assert forall|i: int|
        0 <= i < s.len() && chars::is_letter(#[trigger] s[i]) && at_sentence_start(
            s,
            i,
        ) implies has_steady_capital(s[i]) by {
        let c = s[i];
        assert(chars::is_ascii_char(c));
        let d = chars::ascii_raised(c);
        let r = seq![d];
        assert(chars::raised_char(c) == r);
        assert(chars::is_ascii_char(d) && chars::ascii_letter(d));
        assert(chars::ascii_raised(d) == d);
        assert(capitals_to(r, 0) =~= Seq::<char>::empty());
        assert(capitals_to(r, 1) == capitals_to(r, 0) + capital_at(r, 0));
        assert(capitalized(r) =~= r);
    }
}

/// What stands behind a place decides nothing before it.
proof fn lemma_front_decides(front: Seq<char>, back: Seq<char>, n: int)
    requires
        0 <= n <= front.len(),
    ensures
        at_sentence_start(front + back, n) == at_sentence_start(front, n),
        capitals_to(front + back, n) == capitals_to(front, n),
    decreases n,
{
    if n > 0 {
        lemma_front_decides(front, back, n - 1);
        assert((front + back)[n - 1] == front[n - 1]);
    }
}

/// Where a sentence may start, what follows is capitalised like a text of its own.
proof fn lemma_start_afresh(front: Seq<char>, back: Seq<char>, k: int)
    requires
        0 <= k <= back.len(),
        at_sentence_start(front, front.len() as int),
    ensures
        at_sentence_start(front + back, front.len() + k) == at_sentence_start(back, k),
        capitals_to(front + back, front.len() + k) == capitalized(front) + capitals_to(back, k),
    decreases k,
{
    let all = front + back;
    let m = front.len() as int;
    if k == 0 {
        lemma_front_decides(front, back, m);
        assert(capitals_to(back, 0) =~= Seq::<char>::empty());
        assert(capitalized(front) + capitals_to(back, 0) =~= capitalized(front));
    } else {
        lemma_start_afresh(front, back, k - 1);
        assert(all[m + k - 1] == back[k - 1]);
        assert(capital_at(all, m + k - 1) == capital_at(back, k - 1));
        assert(capitals_to(all, m + k) =~= capitalized(front) + capitals_to(back, k));
    }
}

/// Capitalising what is capitalised so far changes nothing, and a sentence may start behind it
/// where one may start in the text itself.
proof fn lemma_steady_front(s: Seq<char>, n: int)
    requires
        0 <= n <= s.len(),
        has_steady_capitals(s),
    ensures
        capitalized(capitals_to(s, n)) == capitals_to(s, n),
        at_sentence_start(capitals_to(s, n), capitals_to(s, n).len() as int) == at_sentence_start(
            s,
            n,
        ),
    decreases n,
{
    let t = capitals_to(s, n);
    if n == 0 {
        assert(capitals_to(t, 0) =~= t);
    } else {
        lemma_steady_front(s, n - 1);
        let front = capitals_to(s, n - 1);
        let m = front.len() as int;
        let c = s[n - 1];
        let piece = capital_at(s, n - 1);
        assert(t == front + piece);
        if chars::is_letter(c) && at_sentence_start(s, n - 1) {
            assert(has_steady_capital(s[n - 1]));
            lemma_start_afresh(front, piece, piece.len() as int);
        } else {
            lemma_front_decides(front, piece, m);
            assert(t[m] == c);
            assert(capital_at(t, m) == piece);
            assert(capitals_to(t, m + 1) == capitals_to(t, m) + capital_at(t, m));
        }
    }
}

/// Capitalising twice is capitalising once, wherever the capitals are steady.
pub proof fn law_capitalizing_twice_is_capitalizing_once(s: Seq<char>)
    requires
        has_steady_capitals(s),
    ensures
        capitalized(capitalized(s)) == capitalized(s),
{
    lemma_steady_front(s, s.len() as int);
}

/// Nothing but spaces and closing marks from a place up to another.
spec fn between_only(s: Seq<char>, from: int, to: int) -> bool {
    forall|k: int| from <= k < to ==> is_between(#[trigger] s[k]) && !chars::is_letter(s[k])
}

/// Where a sentence may start, and no other place, only spaces and closing marks stand behind
/// the start of the text or behind the last terminator.
proof fn lemma_start_in_characters(s: Seq<char>, i: int)
    requires
        0 <= i <= s.len(),
    ensures
        at_sentence_start(s, i) <==> between_only(s, 0, i) || exists|j: int|
            0 <= j < i && is_terminator(#[trigger] s[j]) && between_only(s, j + 1, i),
    decreases i,
{
    if i > 0 {
        lemma_start_in_characters(s, i - 1);
        let c = s[i - 1];
        if at_sentence_start(s, i) {
            if is_terminator(c) {
                assert(is_terminator(s[i - 1]) && between_only(s, i, i));
            } else if !between_only(s, 0, i - 1) {
                let j = choose|j: int|
                    0 <= j < i - 1 && is_terminator(#[trigger] s[j]) && between_only(s, j + 1, i - 1);
                assert(is_terminator(s[j]) && between_only(s, j + 1, i));
            }
        } else if between_only(s, 0, i) {
            assert(is_between(s[i - 1]));
            assert(between_only(s, 0, i - 1));
        } else if exists|j: int|
            0 <= j < i && is_terminator(#[trigger] s[j]) && between_only(s, j + 1, i) {
            let j = choose|j: int|
                0 <= j < i && is_terminator(#[trigger] s[j]) && between_only(s, j + 1, i);
            if j < i - 1 {
                assert(is_between(s[i - 1]));
                assert(is_terminator(s[j]) && between_only(s, j + 1, i - 1));
            }
        }
    }
}

/// A letter is raised if and only if it is the first of the text, or the first behind a full
/// stop, an exclamation mark or a question mark: nothing but spaces, closing quotes, closing
/// brackets and ellipses may stand in between. Every other character comes out as it went in,
/// in its place and once. So a letter behind the apostrophe of a word is kept.
pub proof fn law_only_the_first_letter_of_a_sentence_is_raised(s: Seq<char>, i: int)
    requires
        0 <= i < s.len(),
    ensures
        capitalized(s.take(0)) == Seq::<char>::empty(),
        chars::is_letter(s[i]) && ((forall|k: int|
            0 <= k < i ==> (s[k] == ' ' || s[k] == '"' || s[k] == '\'' || s[k] == ')' || s[k] == ']'
                || s[k] == '\u{201d}' || s[k] == '\u{2019}' || s[k] == '\u{2026}')
                && !chars::is_letter(#[trigger] s[k])) || (exists|j: int|
            0 <= j < i && (#[trigger] s[j] == '.' || s[j] == '!' || s[j] == '?') && forall|k: int|
                j < k < i ==> (s[k] == ' ' || s[k] == '"' || s[k] == '\'' || s[k] == ')' || s[k]
                    == ']' || s[k] == '\u{201d}' || s[k] == '\u{2019}' || s[k] == '\u{2026}')
                    && !chars::is_letter(#[trigger] s[k]))) ==> capitalized(s.take(i + 1))
            == capitalized(s.take(i)) + chars::raised_char(s[i]),
        !(chars::is_letter(s[i]) && ((forall|k: int|
            0 <= k < i ==> (s[k] == ' ' || s[k] == '"' || s[k] == '\'' || s[k] == ')' || s[k] == ']'
                || s[k] == '\u{201d}' || s[k] == '\u{2019}' || s[k] == '\u{2026}')
                && !chars::is_letter(#[trigger] s[k])) || (exists|j: int|
            0 <= j < i && (#[trigger] s[j] == '.' || s[j] == '!' || s[j] == '?') && forall|k: int|
                j < k < i ==> (s[k] == ' ' || s[k] == '"' || s[k] == '\'' || s[k] == ')' || s[k]
                    == ']' || s[k] == '\u{201d}' || s[k] == '\u{2019}' || s[k] == '\u{2026}')
                    && !chars::is_letter(#[trigger] s[k])))) ==> capitalized(s.take(i + 1))
            == capitalized(s.take(i)) + seq![s[i]],
{
    let front = s.take(i);
    let one = seq![s[i]];
    assert(s.take(i + 1) =~= front + one);
    assert(capitalized(s.take(0)) =~= Seq::<char>::empty());
    lemma_front_decides(front, one, i);
    assert((front + one)[i] == s[i]);
    lemma_front_decides(front, s.skip(i), i);
    assert(front + s.skip(i) =~= s);
    lemma_start_in_characters(s, i);
    if between_only(s, 0, i) {
        assert forall|k: int| 0 <= k < i implies (s[k] == ' ' || s[k] == '"' || s[k] == '\'' || s[k]
            == ')' || s[k] == ']' || s[k] == '\u{201d}' || s[k] == '\u{2019}' || s[k]
            == '\u{2026}') && !chars::is_letter(#[trigger] s[k]) by {
            assert(is_between(s[k]));
        }
    } else if exists|j: int| 0 <= j < i && is_terminator(#[trigger] s[j]) && between_only(s, j + 1, i) {
        let j = choose|j: int|
            0 <= j < i && is_terminator(#[trigger] s[j]) && between_only(s, j + 1, i);
        assert(s[j] == '.' || s[j] == '!' || s[j] == '?');
        assert forall|k: int| j < k < i implies (s[k] == ' ' || s[k] == '"' || s[k] == '\'' || s[k]
            == ')' || s[k] == ']' || s[k] == '\u{201d}' || s[k] == '\u{2019}' || s[k]
            == '\u{2026}') && !chars::is_letter(#[trigger] s[k]) by {
            assert(is_between(s[k]));
        }
    }
    if forall|k: int|
        0 <= k < i ==> (s[k] == ' ' || s[k] == '"' || s[k] == '\'' || s[k] == ')' || s[k] == ']'
            || s[k] == '\u{201d}' || s[k] == '\u{2019}' || s[k] == '\u{2026}')
            && !chars::is_letter(#[trigger] s[k]) {
        assert(between_only(s, 0, i));
    }
    if exists|j: int|
        0 <= j < i && (#[trigger] s[j] == '.' || s[j] == '!' || s[j] == '?') && forall|k: int|
            j < k < i ==> (s[k] == ' ' || s[k] == '"' || s[k] == '\'' || s[k] == ')' || s[k] == ']'
                || s[k] == '\u{201d}' || s[k] == '\u{2019}' || s[k] == '\u{2026}')
                && !chars::is_letter(#[trigger] s[k]) {
        let j = choose|j: int|
            0 <= j < i && (#[trigger] s[j] == '.' || s[j] == '!' || s[j] == '?') && forall|k: int|
                j < k < i ==> (s[k] == ' ' || s[k] == '"' || s[k] == '\'' || s[k] == ')' || s[k]
                    == ']' || s[k] == '\u{201d}' || s[k] == '\u{2019}' || s[k] == '\u{2026}')
                    && !chars::is_letter(#[trigger] s[k]);
        assert(is_terminator(s[j]));
        assert(between_only(s, j + 1, i));
    }
}

/// A letter that follows a letter, a digit or a comma comes out as it went in, and so does one
/// behind an apostrophe that follows a letter.
pub proof fn law_no_letter_inside_a_word_is_raised(s: Seq<char>, i: int)
    requires
        1 <= i < s.len(),
        chars::is_letter(s[i - 1]) || chars::ascii_digit(s[i - 1]) || s[i - 1] == ',' || (s[i - 1]
            == '\'' && i >= 2 && chars::is_letter(s[i - 2])),
    ensures
        capitalized(s.take(i + 1)) == capitalized(s.take(i)) + seq![s[i]],
{
    law_only_the_first_letter_of_a_sentence_is_raised(s, i);
    if s[i - 1] == '\'' {
        assert(chars::is_letter(s[i - 2]));
    }
}

} // verus!
