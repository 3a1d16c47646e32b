//! Post-processing between the model and the text field.
//!
//! Raw output is close to usable but not quite: it carries white space at its ends, emits
//! bracketed non-speech annotations, and keeps the filler words people do not want typed out.
//! Everything here is a rule; there is no model in it.

use vstd::prelude::*;

use crate::annotations;
use crate::annotations::strip_annotations;
use crate::capitals;
use crate::capitals::capitalize_sentences;
use crate::chars;
use crate::chars::{chars_of, same_str, string_of};
use crate::sieve;
use crate::snippets;
pub use crate::snippets::expand_snippets;
use crate::words;
use crate::words::{join_texts, split_words};

verus! {

/// What a table of literals holds.
pub open spec fn entries(table: Seq<&'static str>) -> Seq<Seq<char>> {
    Seq::new(table.len(), |i: int| table[i]@)
}

/// Filler words, removed where one stands alone as a whole word.
///
/// Deliberately short. "like" and "so" are frequently meaningful, and deleting a real word is
/// far more annoying than leaving an "um" in.
pub open spec fn fillers() -> Seq<Seq<char>> {
    seq!["um"@, "uh"@, "erm"@, "uhh"@, "umm"@, "hmm"@, "mhm"@]
}

/// Phrases that a model emits when it is handed silence or noise rather than speech.
pub open spec fn hallucinations() -> Seq<Seq<char>> {
    seq![
        "thank you"@,
        "thanks for watching"@,
        "thank you for watching"@,
        "please subscribe"@,
        "subtitles by the amara.org community"@,
        "you"@,
        "bye"@,
    ]
}

/// The characters that a word keeps when it is held against the fillers.
pub open spec fn in_bare_word() -> spec_fn(char) -> bool {
    |c: char| chars::is_word_char(c) || c == '\''
}

/// The characters that a phrase keeps when it is held against the stock phrases.
pub open spec fn in_bare_phrase() -> spec_fn(char) -> bool {
    |c: char| chars::is_word_char(c) || chars::is_space(c)
}

/// Whether `word` is a filler, whatever its case and the punctuation around it.
pub open spec fn filler(word: Seq<char>) -> bool {
    fillers().contains(chars::lowered_text(word.filter(in_bare_word())))
}

/// The words of a lowercase phrase without punctuation, one space between them.
pub open spec fn bare_phrase(lowered: Seq<char>) -> Seq<char> {
    words::joined(words::words(lowered.filter(in_bare_phrase())), seq![' '])
}

/// A text as it is held against the stock phrases: lowercase, no punctuation, one space
/// between words.
pub open spec fn normalised(s: Seq<char>) -> Seq<char> {
    bare_phrase(chars::lowered_text(s))
}

/// Whether a whole output is a stock phrase, or nothing but punctuation.
pub open spec fn hallucination(s: Seq<char>) -> bool {
    normalised(s).len() == 0 || exists|i: int|
        0 <= i < hallucinations().len() && normalised(s) == normalised(#[trigger] hallucinations()[i])
}

/// Keeps every word that is no filler.
pub open spec fn not_filler() -> spec_fn(Seq<char>) -> bool {
    |w: Seq<char>| !filler(w)
}

/// The words of a transcript that are to be typed.
pub open spec fn kept_words(raw: Seq<char>, remove_fillers: bool) -> Seq<Seq<char>> {
    if remove_fillers {
        words::words(annotations::stripped(raw)).filter(not_filler())
    } else {
        words::words(annotations::stripped(raw))
    }
}

/// The kept words with one space between them, capitalised where asked.
pub open spec fn polished(raw: Seq<char>, remove_fillers: bool, autocapitalize: bool) -> Seq<char> {
    let text = words::joined(kept_words(raw, remove_fillers), seq![' ']);
    if autocapitalize {
        capitals::capitalized(text)
    } else {
        text
    }
}

/// What is typed for a transcript: nothing where the whole of it is a stock phrase.
pub open spec fn cleaned(raw: Seq<char>, remove_fillers: bool, autocapitalize: bool) -> Seq<char> {
    let result = polished(raw, remove_fillers, autocapitalize);
    if hallucination(result) {
        seq![]
    } else {
        result
    }
}

fn filler_table() -> (v: Vec<&'static str>)
    ensures
        entries(v@) == fillers(),
{
    let v: Vec<&'static str> = vec!["um", "uh", "erm", "uhh", "umm", "hmm", "mhm"];
    assert(entries(v@) =~= fillers());
    v
}

fn hallucination_table() -> (v: Vec<&'static str>)
    ensures
        entries(v@) == hallucinations(),
{
    let v: Vec<&'static str> = vec![
        "thank you",
        "thanks for watching",
        "thank you for watching",
        "please subscribe",
        "subtitles by the amara.org community",
        "you",
        "bye",
    ];
    assert(entries(v@) =~= hallucinations());
    v
}

/// Whether `word`, less its punctuation and in lowercase, is a filler word.
pub fn is_filler(word: &str) -> (r: bool)
    ensures
        r == filler(word@),
{
    let text: Vec<char> = chars_of(word);
    let mut bare: Vec<char> = Vec::new();
    let mut i: usize = 0;
    assert(text@.take(0).filter(in_bare_word()) == Seq::<char>::empty()) by {
        reveal(Seq::filter);
    }
    while i < text.len()
        invariant
            i <= text@.len(),
            bare@ == text@.take(i as int).filter(in_bare_word()),
        decreases text@.len() - i,
    {
        let c: char = text[i];
        proof {
            reveal(Seq::filter);
            assert(text@.take(i + 1).drop_last() == text@.take(i as int));
        }
        if c.is_alphanumeric() || c == '\'' {
            bare.push(c);
        }
        i += 1;
    }
    assert(text@.take(i as int) == text@);
    let lowered: String = string_of(bare.as_slice()).to_lowercase();
    assert(lowered@ == chars::lowered_text(word@.filter(in_bare_word())));
    let table: Vec<&'static str> = filler_table();
    let mut k: usize = 0;
    while k < table.len()
        invariant
            k <= table@.len(),
            entries(table@) == fillers(),
            lowered@ == chars::lowered_text(word@.filter(in_bare_word())),
            forall|j: int| 0 <= j < k ==> fillers()[j] != lowered@,
        decreases table@.len() - k,
    {
        assert(entries(table@)[k as int] == table@[k as int]@);
        if same_str(lowered.as_str(), table[k]) {
            assert(fillers()[k as int] == lowered@);
            return true;
        }
        k += 1;
    }
    false
}

/// The words of a lowercase phrase without punctuation, one space between them.
pub fn bare_phrase_of(lowered: &str) -> (out: String)
    ensures
        out@ == bare_phrase(lowered@),
{
    let text: Vec<char> = chars_of(lowered);
    let mut bare: Vec<char> = Vec::new();
    let mut i: usize = 0;
    assert(text@.take(0).filter(in_bare_phrase()) == Seq::<char>::empty()) by {
        reveal(Seq::filter);
    }
    while i < text.len()
        invariant
            i <= text@.len(),
            bare@ == text@.take(i as int).filter(in_bare_phrase()),
        decreases text@.len() - i,
    {
        let c: char = text[i];
        proof {
            reveal(Seq::filter);
            assert(text@.take(i + 1).drop_last() == text@.take(i as int));
        }
        if c.is_alphanumeric() || c.is_whitespace() {
            bare.push(c);
        }
        i += 1;
    }
    assert(text@.take(i as int) == text@);
    let parts: Vec<Vec<char>> = split_words(bare.as_slice());
    let space: Vec<char> = vec![' '];
    assert(space@ == seq![' ']);
    string_of(join_texts(&parts, space.as_slice()).as_slice())
}

/// Whether the whole output is one of the stock silence phrases.
///
/// Case and punctuation are dropped on both sides before comparing, so "Thank you." is
/// "thank you". Output that is nothing but punctuation is never something the user said.
pub fn is_hallucination(text: &str) -> (r: bool)
    ensures
        r == hallucination(text@),
{
    let normal: String = bare_phrase_of(text.to_lowercase().as_str());
    assert(normal@ == normalised(text@));
    if normal.as_str().is_empty() {
        return true;
    }
    let table: Vec<&'static str> = hallucination_table();
    let mut k: usize = 0;
    while k < table.len()
        invariant
            k <= table@.len(),
            entries(table@) == hallucinations(),
            normal@ == normalised(text@),
            normal@.len() > 0,
            forall|j: int|
                0 <= j < k ==> normal@ != normalised(#[trigger] hallucinations()[j]),
        decreases table@.len() - k,
    {
        assert(entries(table@)[k as int] == table@[k as int]@);
        let phrase: String = bare_phrase_of(table[k].to_lowercase().as_str());
        assert(phrase@ == normalised(hallucinations()[k as int]));
        if same_str(normal.as_str(), phrase.as_str()) {
            return true;
        }
        k += 1;
    }
    false
}

/// Turns a raw transcript into what is typed: annotations and white space tidied away, filler
/// words dropped and sentences capitalised where asked, and nothing at all where the model
/// only filled a silence.
pub fn clean(raw: &str, remove_fillers: bool, autocapitalize: bool) -> (out: String)
    ensures
        out@ == cleaned(raw@, remove_fillers, autocapitalize),
{
    let without_annotations: String = strip_annotations(raw);
    let all: Vec<char> = chars_of(without_annotations.as_str());
    let found: Vec<Vec<char>> = split_words(all.as_slice());
    let mut kept: Vec<Vec<char>> = Vec::new();
    let ghost every = words::words(annotations::stripped(raw@));
    let mut i: usize = 0;
    assert(every.take(0).filter(not_filler()) == words::texts(kept@)) by {
        reveal(Seq::filter);
    }
    while i < found.len()
        invariant
            i <= found@.len(),
            every == words::texts(found@),
            words::texts(kept@) == (if remove_fillers {
                every.take(i as int).filter(not_filler())
            } else {
                every.take(i as int)
            }),
        decreases found@.len() - i,
    {
        proof {
            reveal(Seq::filter);
            assert(every.take(i + 1).drop_last() == every.take(i as int));
            assert(every.take(i + 1).last() == found@[i as int]@);
        }
        let word: String = string_of(found[i].as_slice());
        let ghost before = kept@;
        if !remove_fillers || !is_filler(word.as_str()) {
            let copy: Vec<char> = chars_of(word.as_str());
            kept.push(copy);
            assert(words::texts(kept@) =~= words::texts(before).push(found@[i as int]@));
            assert(every.take(i + 1) =~= every.take(i as int).push(found@[i as int]@));
        }
        i += 1;
    }
    assert(every.take(i as int) == every);
    assert(words::texts(kept@) == kept_words(raw@, remove_fillers));
    let space: Vec<char> = vec![' '];
    assert(space@ == seq![' ']);
    let text: String = string_of(join_texts(&kept, space.as_slice()).as_slice());
    let result: String = if autocapitalize {
        capitalize_sentences(text.as_str())
    } else {
        text
    };
    assert(result@ == polished(raw@, remove_fillers, autocapitalize));
    if is_hallucination(result.as_str()) {
        return String::new();
    }
    result
}

/// Every word of the filler table is a filler as it stands.
pub proof fn law_fillers_are_fillers(i: int)
    requires
        0 <= i < fillers().len(),
    ensures
        filler(fillers()[i]),
{
    reveal_strlit("um");
    reveal_strlit("uh");
    reveal_strlit("erm");
    reveal_strlit("uhh");
    reveal_strlit("umm");
    reveal_strlit("hmm");
    reveal_strlit("mhm");
    let w = fillers()[i];
    assert forall|k: int| 0 <= k < w.len() implies 'a' <= #[trigger] w[k] <= 'z' by {}
    sieve::lemma_filter_keeps_all(w, in_bare_word());
    assert(chars::is_ascii_text(w));
    assert(chars::lowered_text(w) =~= w);
}

/// What is kept of a transcript are words: none is empty, none holds white space.
proof fn lemma_kept_words_are_words(raw: Seq<char>, remove_fillers: bool)
    ensures
        forall|i: int|
            0 <= i < kept_words(raw, remove_fillers).len() ==> words::is_word(
                #[trigger] kept_words(raw, remove_fillers)[i],
            ),
{
    let all = words::words(annotations::stripped(raw));
    words::lemma_words_are_words(annotations::stripped(raw));
    if remove_fillers {
        sieve::lemma_filter_is_from(all, not_filler());
        assert forall|i: int| 0 <= i < kept_words(raw, true).len() implies words::is_word(
            #[trigger] kept_words(raw, true)[i],
        ) by {
            let k = choose|k: int| 0 <= k < all.len() && all[k] == all.filter(not_filler())[i];
            assert(words::is_word(all[k]));
        }
    }
}

/// White space stands alone, as one space, and never at an end.
pub open spec fn tidy(s: Seq<char>) -> bool {
    forall|i: int|
        0 <= i < s.len() && chars::is_space(#[trigger] s[i]) ==> s[i] == ' ' && 0 < i < s.len() - 1
            && !chars::is_space(s[i + 1])
}

proof fn lemma_joined_is_tidy(ws: Seq<Seq<char>>)
    requires
        forall|i: int| 0 <= i < ws.len() ==> words::is_word(#[trigger] ws[i]),
    ensures
        tidy(words::joined(ws, seq![' '])),
        ws.len() > 0 ==> words::joined(ws, seq![' ']).len() > 0 && !chars::is_space(
            words::joined(ws, seq![' '])[0],
        ) && !chars::is_space(words::joined(ws, seq![' ']).last()),
    decreases ws.len(),
{
    if ws.len() == 1 {
        assert(words::is_word(ws[0]));
    } else if ws.len() > 1 {
        let front = ws.drop_last();
        assert forall|i: int| 0 <= i < front.len() implies words::is_word(#[trigger] front[i]) by {
            assert(front[i] == ws[i]);
        }
        lemma_joined_is_tidy(front);
        let head = words::joined(front, seq![' ']);
        let w = ws.last();
        assert(words::is_word(ws[ws.len() - 1]));
        let out = words::joined(ws, seq![' ']);
        assert(out == head + seq![' '] + w);
        let n = head.len() as int;
        assert forall|i: int| 0 <= i < out.len() && chars::is_space(#[trigger] out[i]) implies out[i]
            == ' ' && 0 < i < out.len() - 1 && !chars::is_space(out[i + 1]) by {
            if i < n {
                assert(out[i] == head[i]);
                assert(i < n - 1);
                assert(out[i + 1] == head[i + 1]);
            } else if i == n {
                assert(out[i + 1] == w[0]);
            } else {
                assert(out[i] == w[i - n - 1]);
            }
        }
        assert(out[0] == head[0]);
        assert(out.last() == w.last());
    }
}

/// The same text but for the case of its letters.
spec fn recased(s: Seq<char>, t: Seq<char>) -> bool {
    &&& s.len() == t.len()
    &&& chars::is_ascii_text(s)
    &&& forall|k: int| 0 <= k < s.len() ==> #[trigger] t[k] == s[k] || t[k] == chars::ascii_raised(s[k])
}

proof fn lemma_capitalized_is_recased(s: Seq<char>)
    requires
        chars::is_ascii_text(s),
    ensures
        recased(s, capitals::capitalized(s)),
{
    capitals::lemma_ascii_capitals(s, s.len() as int);
}

proof fn lemma_recased_char(s: Seq<char>, t: Seq<char>, k: int)
    requires
        recased(s, t),
        0 <= k < s.len(),
    ensures
        chars::is_ascii_char(t[k]),
        chars::is_space(t[k]) == chars::is_space(s[k]),
        chars::is_space(s[k]) ==> t[k] == s[k],
        in_bare_word()(t[k]) == in_bare_word()(s[k]),
        chars::ascii_lowered(t[k]) == chars::ascii_lowered(s[k]),
{
    assert(chars::is_ascii_char(s[k]));
    assert(t[k] == s[k] || t[k] == chars::ascii_raised(s[k]));
}

/// White space stands alone, as one space, and never in front.
spec fn tidy_so_far(s: Seq<char>) -> bool {
    forall|i: int|
        0 <= i < s.len() && chars::is_space(#[trigger] s[i]) ==> s[i] == ' ' && 0 < i && (i
            < s.len() - 1 ==> !chars::is_space(s[i + 1]))
}

/// Capitalising moves no white space and no bracket, where the capitals are steady.
proof fn lemma_capitals_in_place(plain: Seq<char>, n: int)
    requires
        0 <= n <= plain.len(),
        tidy(plain),
        capitals::has_steady_capitals(plain),
    ensures
        tidy_so_far(capitals::capitals_to(plain, n)),
        n > 0 ==> capitals::capitals_to(plain, n).len() > 0 && chars::is_space(
            capitals::capitals_to(plain, n).last(),
        ) == chars::is_space(plain[n - 1]),
        annotations::brackets(capitals::capitals_to(plain, n)) == annotations::brackets(
            plain.take(n),
        ),
    decreases n,
{
    let out = capitals::capitals_to(plain, n);
    if n == 0 {
        assert(out =~= plain.take(0));
    } else {
        lemma_capitals_in_place(plain, n - 1);
        let front = capitals::capitals_to(plain, n - 1);
        let m = front.len() as int;
        let c = plain[n - 1];
        let piece = capitals::capital_at(plain, n - 1);
        let raised = chars::is_letter(c) && capitals::at_sentence_start(plain, n - 1);
        assert(out == front + piece);
        if raised {
            assert(capitals::has_steady_capital(plain[n - 1]));
            assert(piece.len() > 0);
            if chars::is_space(c) {
                assert(c == ' ');
            }
            sieve::lemma_filter_drops_all(piece, annotations::bracket());
        }
        if n > 1 && chars::is_space(plain[n - 2]) {
            assert(!chars::is_space(plain[n - 1]));
        }
        assert(chars::is_space(piece.last()) == chars::is_space(c)) by {
            if raised {
                assert(!chars::is_space(piece[piece.len() - 1]));
            }
        }
        assert(out.last() == piece.last());
        assert forall|i: int| 0 <= i < out.len() && chars::is_space(#[trigger] out[i]) implies out[i]
            == ' ' && 0 < i && (i < out.len() - 1 ==> !chars::is_space(out[i + 1])) by {
            if i < m {
                assert(out[i] == front[i]);
                if i < m - 1 {
                    assert(out[i + 1] == front[i + 1]);
                } else {
                    assert(front[i] == front.last());
                    assert(out[i + 1] == piece[0]);
                    assert(!chars::is_space(piece[0]));
                }
            } else {
                assert(out[i] == piece[i - m]);
                assert(!raised);
            }
        }
        lemma_brackets_add(front, piece);
        lemma_brackets_add(plain.take(n - 1), seq![c]);
        assert(plain.take(n) =~= plain.take(n - 1) + seq![c]);
        sieve::lemma_filter_one(c, annotations::bracket());
        assert(annotations::brackets(piece) =~= annotations::brackets(seq![c]));
    }
}

/// With steady capitals a tidy text stays tidy, and keeps its brackets.
proof fn lemma_capitals_stay_tidy(plain: Seq<char>)
    requires
        tidy(plain),
        capitals::has_steady_capitals(plain),
    ensures
        tidy(capitals::capitalized(plain)),
        annotations::brackets(capitals::capitalized(plain)) == annotations::brackets(plain),
{
    let n = plain.len() as int;
    let out = capitals::capitalized(plain);
    lemma_capitals_in_place(plain, n);
    assert(plain.take(n) =~= plain);
    if n > 0 {
        assert(!chars::is_space(plain[n - 1]));
        assert(!chars::is_space(out[out.len() - 1]));
    }
}

/// White space is trimmed and collapsed: what is typed has no white space at its ends, and single
/// spaces between its words. Where the text is capitalised, its capitals are to be steady,
/// as those of every ASCII text are: what another capital letter is stays with Unicode.
pub proof fn law_white_space_is_collapsed(raw: Seq<char>, remove_fillers: bool, autocapitalize: bool)
    requires
        autocapitalize ==> capitals::has_steady_capitals(polished(raw, remove_fillers, false)),
    ensures
        tidy(cleaned(raw, remove_fillers, autocapitalize)),
{
    let plain = polished(raw, remove_fillers, false);
    lemma_kept_words_are_words(raw, remove_fillers);
    lemma_joined_is_tidy(kept_words(raw, remove_fillers));
    if autocapitalize {
        lemma_capitals_stay_tidy(plain);
    }
}

/// The brackets of some words, one word after another.
spec fn brackets_of(ws: Seq<Seq<char>>) -> Seq<char>
    decreases ws.len(),
{
    if ws.len() == 0 {
        seq![]
    } else {
        brackets_of(ws.drop_last()) + annotations::brackets(ws.last())
    }
}

proof fn lemma_brackets_add(a: Seq<char>, b: Seq<char>)
    ensures
        annotations::brackets(a + b) == annotations::brackets(a) + annotations::brackets(b),
{
    Seq::filter_distributes_over_add(a, b, annotations::bracket());
}

proof fn lemma_brackets_of_joined(ws: Seq<Seq<char>>)
    ensures
        annotations::brackets(words::joined(ws, seq![' '])) == brackets_of(ws),
    decreases ws.len(),
{
    reveal(Seq::filter);
    if ws.len() == 1 {
        assert(brackets_of(ws.drop_last()) =~= Seq::<char>::empty());
        assert(brackets_of(ws) =~= annotations::brackets(ws[0]));
    } else if ws.len() > 1 {
        let head = words::joined(ws.drop_last(), seq![' ']);
        lemma_brackets_of_joined(ws.drop_last());
        lemma_brackets_add(head + seq![' '], ws.last());
        lemma_brackets_add(head, seq![' ']);
        sieve::lemma_filter_one(' ', annotations::bracket());
        assert(annotations::brackets(head) + Seq::<char>::empty() =~= annotations::brackets(head));
    }
}

proof fn lemma_brackets_of_front(w: Seq<char>, ws: Seq<Seq<char>>)
    ensures
        brackets_of(seq![w] + ws) == annotations::brackets(w) + brackets_of(ws),
    decreases ws.len(),
{
    let all = seq![w] + ws;
    if ws.len() == 0 {
        assert(brackets_of(all.drop_last()) =~= Seq::<char>::empty());
        assert(all.last() == w);
        assert(brackets_of(all) =~= annotations::brackets(w) + brackets_of(ws));
    } else {
        lemma_brackets_of_front(w, ws.drop_last());
        assert(all.drop_last() =~= seq![w] + ws.drop_last());
        assert(all.last() == ws.last());
        assert(brackets_of(all) =~= annotations::brackets(w) + brackets_of(ws));
    }
}

/// White space is no bracket, so that splitting loses none.
proof fn lemma_brackets_of_words(s: Seq<char>)
    ensures
        brackets_of(words::words(s)) == annotations::brackets(s),
    decreases s.len(),
{
    reveal(Seq::filter);
    if s.len() > 0 {
        if chars::is_space(s[0]) {
            lemma_brackets_of_words(s.drop_first());
            lemma_brackets_add(seq![s[0]], s.drop_first());
            assert(seq![s[0]] + s.drop_first() =~= s);
            assert(!annotations::bracket()(s[0]));
            sieve::lemma_filter_one(s[0], annotations::bracket());
            assert(Seq::<char>::empty() + annotations::brackets(s.drop_first())
                =~= annotations::brackets(s.drop_first()));
        } else {
            words::lemma_word_len(s);
            let n = words::word_len(s) as int;
            lemma_brackets_of_words(s.skip(n));
            lemma_brackets_of_front(s.take(n), words::words(s.skip(n)));
            lemma_brackets_add(s.take(n), s.skip(n));
            assert(s.take(n) + s.skip(n) =~= s);
        }
    }
}

proof fn lemma_brackets_of_kept(ws: Seq<Seq<char>>)
    requires
        forall|i: int|
            0 <= i < ws.len() && filler(#[trigger] ws[i]) ==> annotations::brackets(ws[i]).len()
                == 0,
    ensures
        brackets_of(ws.filter(not_filler())) == brackets_of(ws),
    decreases ws.len(),
{
    reveal(Seq::filter);
    if ws.len() > 0 {
        let front = ws.drop_last();
        assert forall|i: int|
            0 <= i < front.len() && filler(#[trigger] front[i]) implies annotations::brackets(
            front[i],
        ).len() == 0 by {
            assert(front[i] == ws[i]);
        }
        lemma_brackets_of_kept(front);
        let w = ws[ws.len() - 1];
        if filler(w) {
            assert(annotations::brackets(w) =~= Seq::<char>::empty());
            assert(brackets_of(ws) =~= brackets_of(front));
        } else {
            let kept = front.filter(not_filler()).push(w);
            assert(ws.filter(not_filler()) == kept);
            assert(kept.drop_last() =~= front.filter(not_filler()));
        }
    }
}

/// A tidy text is its words with one space between them.
proof fn lemma_tidy_is_joined(s: Seq<char>)
    requires
        tidy(s),
    ensures
        words::joined(words::words(s), seq![' ']) == s,
    decreases s.len(),
{
    if s.len() > 0 {
        assert(!chars::is_space(s[0]));
        words::lemma_word_len(s);
        let n = words::word_len(s) as int;
        let w = s.take(n);
        if n == s.len() {
            assert(s.skip(n) =~= Seq::<char>::empty());
            assert(words::words(s.skip(n)) =~= seq![]);
            assert(words::words(s) =~= seq![w]);
            assert(w =~= s);
        } else {
            let rest = s.skip(n + 1);
            assert(s[n] == ' ' && n < s.len() - 1 && !chars::is_space(s[n + 1]));
            assert(rest[0] == s[n + 1]);
            assert forall|i: int| 0 <= i < rest.len() && chars::is_space(
                #[trigger] rest[i],
            ) implies rest[i] == ' ' && 0 < i < rest.len() - 1 && !chars::is_space(rest[i + 1]) by {
                assert(rest[i] == s[i + n + 1]);
                assert(rest[i + 1] == s[i + n + 2]);
            }
            lemma_tidy_is_joined(rest);
            assert(s.skip(n)[0] == s[n]);
            assert(s.skip(n).drop_first() =~= rest);
            assert(words::words(s.skip(n)) == words::words(rest));
            assert(words::words(s) == seq![w] + words::words(s.skip(n)));
            assert(words::words(rest).len() > 0);
            lemma_joined_front(w, words::words(rest));
            assert(w + seq![' '] + rest =~= s);
        }
    } else {
        assert(words::words(s) =~= seq![]);
        assert(words::joined(words::words(s), seq![' ']) =~= s);
    }
}

proof fn lemma_joined_front(w: Seq<char>, ws: Seq<Seq<char>>)
    requires
        ws.len() > 0,
    ensures
        words::joined(seq![w] + ws, seq![' ']) == w + seq![' '] + words::joined(ws, seq![' ']),
    decreases ws.len(),
{
    let all = seq![w] + ws;
    assert(all.last() == ws.last());
    assert(all.drop_last() =~= seq![w] + ws.drop_last());
    if ws.len() == 1 {
        assert(all.drop_last() =~= seq![w]);
        assert(words::joined(seq![w], seq![' ']) == w);
    } else {
        lemma_joined_front(w, ws.drop_last());
        assert(words::joined(all, seq![' ']) =~= w + seq![' '] + words::joined(ws, seq![' ']));
    }
}

/// Cleaning a cleaned text changes nothing. A filler word that is removed may not hold a bracket:
/// without it, a bracket before and one behind could come to make a span. Where the text is
/// capitalised, its capitals are to be steady, be they one character or several, as those of
/// every ASCII text are: what another capital letter is stays with Unicode.
pub proof fn law_cleaning_twice_is_cleaning_once(
    raw: Seq<char>,
    remove_fillers: bool,
    autocapitalize: bool,
)
    requires
        remove_fillers ==> forall|i: int|
            0 <= i < kept_words(raw, false).len() && filler(#[trigger] kept_words(raw, false)[i])
                ==> annotations::brackets(kept_words(raw, false)[i]).len() == 0,
        autocapitalize ==> capitals::has_steady_capitals(polished(raw, remove_fillers, false)),
    ensures
        cleaned(cleaned(raw, remove_fillers, autocapitalize), false, autocapitalize) == cleaned(
            raw,
            remove_fillers,
            autocapitalize,
        ),
{
    let u = annotations::stripped(raw);
    let plain = polished(raw, remove_fillers, false);
    let kept = kept_words(raw, remove_fillers);
    lemma_kept_words_are_words(raw, remove_fillers);
    lemma_joined_is_tidy(kept);
    lemma_brackets_of_joined(kept);
    lemma_brackets_of_words(u);
    if remove_fillers {
        let all = kept_words(raw, false);
        assert(all == words::words(u));
        lemma_brackets_of_kept(all);
    }
    annotations::law_stripping_twice_is_stripping_once(raw);
    annotations::law_brackets_alone_decide(plain, u);
    let r = cleaned(raw, remove_fillers, autocapitalize);
    let text = polished(raw, remove_fillers, autocapitalize);
    if hallucination(text) {
        assert(r =~= Seq::<char>::empty());
        assert(annotations::stripped(r) =~= r);
        lemma_tidy_is_joined(r);
        assert(capitals::capitalized(r) =~= r);
        law_silence_stays_silent(r, false, autocapitalize);
        assert(cleaned(r, false, autocapitalize) =~= r);
    } else {
        if autocapitalize {
            lemma_capitals_stay_tidy(plain);
            annotations::law_brackets_alone_decide(text, plain);
            capitals::law_capitalizing_twice_is_capitalizing_once(plain);
        }
        assert(annotations::stripped(r) == r);
        lemma_tidy_is_joined(r);
        assert(polished(r, false, autocapitalize) == r);
    }
}

/// Texts that differ in case alone have the same words, but for their case.
proof fn lemma_recased_words(s: Seq<char>, t: Seq<char>)
    requires
        recased(s, t),
    ensures
        words::words(s).len() == words::words(t).len(),
        forall|i: int|
            0 <= i < words::words(t).len() ==> recased(
                words::words(s)[i],
                #[trigger] words::words(t)[i],
            ),
    decreases s.len(),
{
    if s.len() > 0 {
        lemma_recased_char(s, t, 0);
        if chars::is_space(s[0]) {
            lemma_recased_rest(s, t, 1);
            assert(s.skip(1) =~= s.drop_first());
            assert(t.skip(1) =~= t.drop_first());
            lemma_recased_words(s.drop_first(), t.drop_first());
        } else {
            lemma_recased_word_len(s, t);
            words::lemma_word_len(s);
            let n = words::word_len(s) as int;
            lemma_recased_rest(s, t, n);
            lemma_recased_words(s.skip(n), t.skip(n));
            let ws = words::words(s);
            let wt = words::words(t);
            assert(ws == seq![s.take(n)] + words::words(s.skip(n)));
            assert(wt == seq![t.take(n)] + words::words(t.skip(n)));
            assert forall|i: int| 0 <= i < wt.len() implies recased(ws[i], #[trigger] wt[i]) by {
                if i > 0 {
                    assert(ws[i] == words::words(s.skip(n))[i - 1]);
                    assert(wt[i] == words::words(t.skip(n))[i - 1]);
                }
            }
        }
    }
}

proof fn lemma_recased_rest(s: Seq<char>, t: Seq<char>, n: int)
    requires
        recased(s, t),
        0 <= n <= s.len(),
    ensures
        recased(s.skip(n), t.skip(n)),
        recased(s.take(n), t.take(n)),
{
    assert forall|k: int| 0 <= k < s.skip(n).len() implies #[trigger] t.skip(n)[k] == s.skip(n)[k]
        || t.skip(n)[k] == chars::ascii_raised(s.skip(n)[k]) by {
        assert(t.skip(n)[k] == t[k + n]);
    }
    assert forall|k: int| 0 <= k < s.skip(n).len() implies chars::is_ascii_char(
        #[trigger] s.skip(n)[k],
    ) by {
        assert(s.skip(n)[k] == s[k + n]);
    }
}

proof fn lemma_recased_word_len(s: Seq<char>, t: Seq<char>)
    requires
        recased(s, t),
    ensures
        words::word_len(s) == words::word_len(t),
    decreases s.len(),
{
    if s.len() > 0 {
        lemma_recased_char(s, t, 0);
        if !chars::is_space(s[0]) {
            lemma_recased_rest(s, t, 1);
            assert(s.skip(1) =~= s.drop_first());
            assert(t.skip(1) =~= t.drop_first());
            lemma_recased_word_len(s.drop_first(), t.drop_first());
        }
    }
}

/// Case does not make a filler.
proof fn lemma_recased_filler(v: Seq<char>, w: Seq<char>)
    requires
        recased(v, w),
    ensures
        filler(v) == filler(w),
{
    let p = in_bare_word();
    lemma_recased_filtered(v, w);
    let x = v.filter(p);
    let y = w.filter(p);
    assert forall|k: int| 0 <= k < y.len() implies chars::is_ascii_char(#[trigger] y[k]) by {
        lemma_recased_char(x, y, k);
    }
    assert forall|k: int| 0 <= k < y.len() implies chars::ascii_lowered(#[trigger] y[k])
        == chars::ascii_lowered(x[k]) by {
        lemma_recased_char(x, y, k);
    }
    assert(chars::lowered_text(x) =~= chars::lowered_text(y));
}

proof fn lemma_recased_filtered(v: Seq<char>, w: Seq<char>)
    requires
        recased(v, w),
    ensures
        recased(v.filter(in_bare_word()), w.filter(in_bare_word())),
    decreases v.len(),
{
    reveal(Seq::filter);
    if v.len() > 0 {
        let n = v.len() - 1;
        lemma_recased_rest(v, w, n);
        assert(v.take(n) =~= v.drop_last());
        assert(w.take(n) =~= w.drop_last());
        lemma_recased_filtered(v.drop_last(), w.drop_last());
        lemma_recased_char(v, w, n);
        assert(chars::is_ascii_char(v[n]));
        assert(w[n] == v[n] || w[n] == chars::ascii_raised(v[n]));
    }
}

/// No filler word is left when fillers are removed, also where the text is capitalised, as far
/// as it is ASCII.
pub proof fn law_no_filler_is_left(raw: Seq<char>, autocapitalize: bool)
    requires
        autocapitalize ==> chars::is_ascii_text(polished(raw, true, false)),
    ensures
        forall|i: int|
            0 <= i < words::words(cleaned(raw, true, autocapitalize)).len() ==> !filler(
                #[trigger] words::words(cleaned(raw, true, autocapitalize))[i],
            ),
{
    let plain = polished(raw, true, false);
    lemma_kept_words_are_words(raw, true);
    words::lemma_words_of_joined(kept_words(raw, true));
    sieve::lemma_filter_is_from(words::words(annotations::stripped(raw)), not_filler());
    if autocapitalize {
        let out = capitals::capitalized(plain);
        lemma_capitalized_is_recased(plain);
        lemma_recased_words(plain, out);
        assert forall|i: int| 0 <= i < words::words(out).len() implies !filler(
            #[trigger] words::words(out)[i],
        ) by {
            assert(words::words(plain)[i] == kept_words(raw, true)[i]);
            lemma_recased_filler(words::words(plain)[i], words::words(out)[i]);
        }
    }
}

/// Every word that is no filler stays, in its order; without filler removal every word does.
/// Capitalisation changes no more than the case of an ASCII text.
pub proof fn law_other_words_stay(raw: Seq<char>, remove_fillers: bool, autocapitalize: bool)
    requires
        !hallucination(polished(raw, remove_fillers, autocapitalize)),
        autocapitalize ==> chars::is_ascii_text(polished(raw, remove_fillers, false)),
    ensures
        ({
            let typed = words::words(cleaned(raw, remove_fillers, autocapitalize));
            let kept = kept_words(raw, remove_fillers);
            &&& !autocapitalize ==> typed == kept
            &&& typed.len() == kept.len()
            &&& forall|i: int|
                0 <= i < typed.len() ==> chars::lowered_text(#[trigger] typed[i])
                    == chars::lowered_text(kept[i])
        }),
{
    let plain = polished(raw, remove_fillers, false);
    let kept = kept_words(raw, remove_fillers);
    lemma_kept_words_are_words(raw, remove_fillers);
    words::lemma_words_of_joined(kept);
    if autocapitalize {
        let out = capitals::capitalized(plain);
        lemma_capitalized_is_recased(plain);
        lemma_recased_words(plain, out);
        let typed = words::words(out);
        assert forall|i: int| 0 <= i < typed.len() implies chars::lowered_text(#[trigger] typed[i])
            == chars::lowered_text(kept[i]) by {
            assert(words::words(plain)[i] == kept[i]);
            assert(recased(kept[i], typed[i]));
            assert forall|k: int| 0 <= k < typed[i].len() implies chars::is_ascii_char(
                #[trigger] typed[i][k],
            ) && chars::ascii_lowered(typed[i][k]) == chars::ascii_lowered(kept[i][k]) by {
                lemma_recased_char(kept[i], typed[i], k);
            }
            assert(chars::lowered_text(typed[i]) =~= chars::lowered_text(kept[i]));
        }
    }
}

/// Off means untouched: a text without closing brackets, already single-spaced and no stock
/// phrase, comes back as it went in.
pub proof fn law_plain_text_is_untouched(raw: Seq<char>)
    requires
        forall|i: int| 0 <= i < raw.len() ==> !annotations::is_closer(#[trigger] raw[i]),
        raw == words::joined(words::words(raw), seq![' ']),
        !hallucination(raw),
    ensures
        cleaned(raw, false, false) == raw,
{
    annotations::law_unclosed_text_is_kept(raw);
}

/// A text with no words outside its annotations comes to nothing.
pub proof fn law_silence_stays_silent(raw: Seq<char>, remove_fillers: bool, autocapitalize: bool)
    requires
        words::words(annotations::stripped(raw)).len() == 0,
    ensures
        cleaned(raw, remove_fillers, autocapitalize).len() == 0,
{
    reveal(Seq::filter);
    assert(kept_words(raw, remove_fillers).len() == 0);
}

/// Only a whole output is ever dropped: anything else comes out in full.
pub proof fn law_only_a_whole_output_is_dropped(
    raw: Seq<char>,
    remove_fillers: bool,
    autocapitalize: bool,
)
    ensures
        ({
            let text = polished(raw, remove_fillers, autocapitalize);
            let out = cleaned(raw, remove_fillers, autocapitalize);
            &&& hallucination(text) ==> out.len() == 0
            &&& !hallucination(text) ==> out == text
        }),
{
}

/// Case and punctuation do not matter to the stock phrases: a text that has a phrase's
/// letters, digits and spaces in lowercase is that phrase.
pub proof fn law_stock_phrase_in_any_dress(s: Seq<char>, i: int)
    requires
        0 <= i < hallucinations().len(),
        chars::lowered_text(s).filter(in_bare_phrase()) == chars::lowered_text(hallucinations()[i]).filter(
            in_bare_phrase(),
        ),
    ensures
        hallucination(s),
{
}

/// A text whose lowercase holds no letter and no digit is dropped.
pub proof fn law_punctuation_alone_is_dropped(s: Seq<char>)
    requires
        forall|i: int|
            0 <= i < chars::lowered_text(s).len() ==> !chars::is_word_char(#[trigger] chars::lowered_text(s)[i]),
    ensures
        hallucination(s),
{
    let low = chars::lowered_text(s);
    sieve::lemma_filter_is_from(low, in_bare_phrase());
    let bare = low.filter(in_bare_phrase());
    assert forall|i: int| 0 <= i < bare.len() implies chars::is_space(#[trigger] bare[i]) by {
        let k = choose|k: int| 0 <= k < low.len() && low[k] == low.filter(in_bare_phrase())[i];
        assert(!chars::is_word_char(low[k]));
    }
    lemma_no_words_in_space(bare);
}

/// White space holds no words.
proof fn lemma_no_words_in_space(s: Seq<char>)
    requires
        forall|i: int| 0 <= i < s.len() ==> chars::is_space(#[trigger] s[i]),
    ensures
        words::words(s).len() == 0,
    decreases s.len(),
{
    if s.len() > 0 {
        assert(chars::is_space(s[0]));
        let t = s.drop_first();
        assert forall|i: int| 0 <= i < t.len() implies chars::is_space(#[trigger] t[i]) by {
            assert(t[i] == s[i + 1]);
        }
        lemma_no_words_in_space(t);
    }
}

/// The words that a text is held against the stock phrases by: those of its lowercase letters,
/// digits and white space.
pub open spec fn bare_words(s: Seq<char>) -> Seq<Seq<char>> {
    words::words(chars::lowered_text(s).filter(in_bare_phrase()))
}

/// Nothing but the bare words of an output decides: two texts that differ in case, punctuation
/// and runs of white space get the same answer.
pub proof fn law_the_bare_words_decide(s: Seq<char>, t: Seq<char>)
    requires
        bare_words(s) == bare_words(t),
    ensures
        hallucination(s) == hallucination(t),
{
}

/// Whether a text is lowered character by character, as every ASCII text is. Unicode lowers
/// nearly every other text so too; a capital sigma goes by its place in the word.
pub open spec fn lowers_by_character(s: Seq<char>) -> bool {
    chars::lowered_text(s) == snippets::lowered_each(s)
}

/// An ASCII text is lowered character by character.
pub proof fn law_ascii_text_lowers_by_character(s: Seq<char>)
    requires
        chars::is_ascii_text(s),
    ensures
        lowers_by_character(s),
    decreases s.len(),
{
    if s.len() > 0 {
        let t = s.drop_first();
        assert forall|i: int| 0 <= i < t.len() implies chars::is_ascii_char(#[trigger] t[i]) by {
            assert(t[i] == s[i + 1]);
        }
        law_ascii_text_lowers_by_character(t);
        assert(chars::is_ascii_char(s[0]));
        assert(chars::lowered_text(s) =~= chars::lowered_char(s[0]) + chars::lowered_text(t));
    } else {
        assert(chars::lowered_text(s) =~= snippets::lowered_each(s));
    }
}

/// An ASCII punctuation mark.
pub open spec fn is_mark(c: char) -> bool {
    chars::is_ascii_char(c) && !chars::is_word_char(c) && !chars::is_space(c)
}

/// White space that lowering leaves as it is, as it leaves that of ASCII.
pub open spec fn is_blank(c: char) -> bool {
    chars::is_space(c) && chars::lowered_char(c) == seq![c]
}

/// Whether `t` is `s` in another dress: with an ASCII letter at `k` in the other case, with one
/// more mark at `k`, or with one more blank there, where `s` has a blank beside it or an end.
pub open spec fn dressed(s: Seq<char>, t: Seq<char>, k: int, c: char) -> bool {
    ||| {
        &&& 0 <= k < s.len()
        &&& chars::is_ascii_char(s[k]) && chars::is_ascii_char(c)
        &&& chars::ascii_lowered(s[k]) == chars::ascii_lowered(c)
        &&& t == s.update(k, c)
    }
    ||| {
        &&& 0 <= k <= s.len()
        &&& is_mark(c)
        &&& t == s.insert(k, c)
    }
    ||| {
        &&& 0 <= k <= s.len()
        &&& is_blank(c)
        &&& k == 0 || k == s.len() || is_blank(s[k - 1]) || is_blank(s[k])
        &&& t == s.insert(k, c)
    }
}

/// Whether one change of dress leads from one of the texts to the other.
pub open spec fn one_change_apart(s: Seq<char>, t: Seq<char>) -> bool {
    ||| exists|k: int, c: char| dressed(s, t, k, c)
    ||| exists|k: int, c: char| dressed(t, s, k, c)
}

/// The bare words of a text that is lowered character by character.
spec fn bare_words_each(s: Seq<char>) -> Seq<Seq<char>> {
    words::words(snippets::lowered_each(s).filter(in_bare_phrase()))
}

/// What a filtered, lowered text is made of.
proof fn lemma_bare_parts(front: Seq<char>, c: char, back: Seq<char>)
    ensures
        ({
            let p = in_bare_phrase();
            let x = snippets::lowered_each(front).filter(p);
            let y = snippets::lowered_each(back).filter(p);
            &&& snippets::lowered_each(front + seq![c] + back).filter(p) == x
                + chars::lowered_char(c).filter(p) + y
            &&& snippets::lowered_each(front + back).filter(p) == x + y
        }),
{
    let p = in_bare_phrase();
    let one = seq![c];
    let f = snippets::lowered_each(front);
    let m = chars::lowered_char(c);
    let b = snippets::lowered_each(back);
    snippets::lemma_lowered_one(c);
    snippets::lemma_lowered_each_concat(front, one);
    snippets::lemma_lowered_each_concat(front + one, back);
    snippets::lemma_lowered_each_concat(front, back);
    Seq::filter_distributes_over_add(f + m, b, p);
    Seq::filter_distributes_over_add(f, m, p);
    Seq::filter_distributes_over_add(f, b, p);
}

/// A blank at an end of a text is still there when the text is lowered and filtered.
proof fn lemma_blank_ends_stay(s: Seq<char>)
    requires
        s.len() > 0,
    ensures
        ({
            let x = snippets::lowered_each(s).filter(in_bare_phrase());
            &&& is_blank(s.last()) ==> x.len() > 0 && x.last() == s.last()
            &&& is_blank(s[0]) ==> x.len() > 0 && x[0] == s[0]
        }),
{
    reveal(Seq::filter);
    let none = Seq::<char>::empty();
    let p = in_bare_phrase();
    assert(snippets::lowered_each(none) =~= none);
    assert(none.filter(p) =~= none);
    if is_blank(s.last()) {
        lemma_bare_parts(s.drop_last(), s.last(), none);
        sieve::lemma_filter_one(s.last(), p);
        assert(s.drop_last() + seq![s.last()] + none =~= s);
    }
    if is_blank(s[0]) {
        lemma_bare_parts(none, s[0], s.drop_first());
        sieve::lemma_filter_one(s[0], p);
        assert(none + seq![s[0]] + s.drop_first() =~= s);
    }
}

proof fn lemma_dressed(s: Seq<char>, t: Seq<char>, k: int, c: char)
    requires
        dressed(s, t, k, c),
    ensures
        bare_words_each(s) == bare_words_each(t),
{
    let p = in_bare_phrase();
    let front = s.take(k);
    if t == s.insert(k, c) && 0 <= k <= s.len() && (is_mark(c) || is_blank(c)) {
        let back = s.skip(k);
        assert(s =~= front + back);
        assert(t =~= front + seq![c] + back);
        lemma_bare_parts(front, c, back);
        let x = snippets::lowered_each(front).filter(p);
        let y = snippets::lowered_each(back).filter(p);
        assert(chars::lowered_char(c) =~= seq![c]);
        sieve::lemma_filter_one(c, p);
        if is_mark(c) {
            assert(x + seq![] + y =~= x + y);
        } else {
            reveal(Seq::filter);
            if k == 0 {
                assert(front =~= Seq::<char>::empty());
                assert(x =~= Seq::<char>::empty());
            } else {
                lemma_blank_ends_stay(front);
                assert(front.last() == s[k - 1]);
            }
            if k == s.len() {
                assert(back =~= Seq::<char>::empty());
                assert(y =~= Seq::<char>::empty());
            } else {
                lemma_blank_ends_stay(back);
                assert(back[0] == s[k]);
            }
            lemma_one_more_space(x, c, y);
        }
    } else {
        let back = s.skip(k + 1);
        assert(s =~= front + seq![s[k]] + back);
        assert(t =~= front + seq![c] + back);
        lemma_bare_parts(front, s[k], back);
        lemma_bare_parts(front, c, back);
    }
}

/// Neither case nor punctuation nor white space matters. Any number of changes of dress, each a
/// letter of ASCII in the other case, an ASCII mark more or less, or a blank more or less beside
/// a blank or at an end, leads to a text with the same answer. The text at either end of the way
/// is to be lowered character by character, as every ASCII text is.
pub proof fn law_dress_does_not_matter(way: Seq<Seq<char>>)
    requires
        way.len() > 0,
        forall|i: int, j: int|
            0 <= i < j < way.len() && j == i + 1 ==> one_change_apart(
                #[trigger] way[i],
                #[trigger] way[j],
            ),
        lowers_by_character(way[0]),
        lowers_by_character(way.last()),
    ensures
        hallucination(way[0]) == hallucination(way.last()),
{
    lemma_dress_along(way);
    law_the_bare_words_decide(way[0], way.last());
}

proof fn lemma_dress_along(way: Seq<Seq<char>>)
    requires
        way.len() > 0,
        forall|i: int, j: int|
            0 <= i < j < way.len() && j == i + 1 ==> one_change_apart(
                #[trigger] way[i],
                #[trigger] way[j],
            ),
    ensures
        bare_words_each(way[0]) == bare_words_each(way.last()),
    decreases way.len(),
{
    if way.len() > 1 {
        let rest = way.drop_last();
        let n = way.len() - 1;
        assert forall|i: int, j: int|
            0 <= i < j < rest.len() && j == i + 1 implies one_change_apart(
            #[trigger] rest[i],
            #[trigger] rest[j],
        ) by {
            assert(rest[i] == way[i] && rest[j] == way[j]);
        }
        lemma_dress_along(rest);
        assert(one_change_apart(way[n - 1], way[n]));
        let s = way[n - 1];
        let t = way[n];
        if exists|k: int, c: char| dressed(s, t, k, c) {
            let (k, c) = choose|k: int, c: char| dressed(s, t, k, c);
            lemma_dressed(s, t, k, c);
        } else {
            let (k, c) = choose|k: int, c: char| dressed(t, s, k, c);
            lemma_dressed(t, s, k, c);
        }
        assert(rest[0] == way[0] && rest.last() == way[n - 1]);
    }
}

/// A space beside a space, or at an end, makes no other words.
proof fn lemma_one_more_space(x: Seq<char>, blank: char, y: Seq<char>)
    requires
        chars::is_space(blank),
        x.len() == 0 || y.len() == 0 || chars::is_space(x.last()) || chars::is_space(y[0]),
    ensures
        words::words(x + seq![blank] + y) == words::words(x + y),
{
    let none = Seq::<char>::empty();
    assert(words::words(none) =~= seq![]);
    words::lemma_words_around_space(x, blank, y);
    if x.len() == 0 {
        assert(x =~= none);
        assert(x + y =~= y);
    } else if y.len() == 0 {
        assert(y =~= none);
        assert(x + y =~= x);
    } else if chars::is_space(x.last()) {
        let front = x.drop_last();
        words::lemma_words_around_space(front, x.last(), y);
        words::lemma_words_around_space(front, x.last(), none);
        assert(front + seq![x.last()] + y =~= x + y);
        assert(front + seq![x.last()] + none =~= x);
    } else {
        let back = y.drop_first();
        words::lemma_words_around_space(x, y[0], back);
        words::lemma_words_around_space(none, y[0], back);
        assert(x + seq![y[0]] + back =~= x + y);
        assert(none + seq![y[0]] + back =~= y);
    }
    assert(words::words(x + seq![blank] + y) =~= words::words(x + y));
}

/// A text with no letter or digit in it is dropped. It is to be lowered character by character,
/// and lowering is to make no letter or digit of what is none, as it never does in ASCII.
pub proof fn law_a_text_without_letters_is_dropped(s: Seq<char>)
    requires
        forall|i: int| 0 <= i < s.len() ==> !chars::is_word_char(#[trigger] s[i]),
        lowers_by_character(s),
        forall|i: int, k: int|
            0 <= i < s.len() && !chars::is_ascii_char(s[i]) && 0 <= k < chars::lowered_char(
                s[i],
            ).len() ==> !chars::is_word_char(#[trigger] chars::lowered_char(s[i])[k]),
    ensures
        hallucination(s),
{
    assert forall|i: int, k: int|
        0 <= i < s.len() && 0 <= k < chars::lowered_char(s[i]).len() implies !chars::is_word_char(
        #[trigger] chars::lowered_char(s[i])[k],
    ) by {
        if chars::is_ascii_char(s[i]) {
            assert(!chars::is_word_char(s[i]));
            assert(chars::lowered_char(s[i])[k] == s[i]);
        }
    }
    lemma_none_lowers_to_a_letter(s);
    law_punctuation_alone_is_dropped(s);
}

proof fn lemma_none_lowers_to_a_letter(s: Seq<char>)
    requires
        forall|i: int, k: int|
            0 <= i < s.len() && 0 <= k < chars::lowered_char(s[i]).len() ==> !chars::is_word_char(
                #[trigger] chars::lowered_char(s[i])[k],
            ),
    ensures
        forall|i: int|
            0 <= i < snippets::lowered_each(s).len() ==> !chars::is_word_char(
                #[trigger] snippets::lowered_each(s)[i],
            ),
    decreases s.len(),
{
    if s.len() > 0 {
        let t = s.drop_first();
        let head = chars::lowered_char(s[0]);
        assert forall|i: int, k: int|
            0 <= i < t.len() && 0 <= k < chars::lowered_char(t[i]).len() implies !chars::is_word_char(
            #[trigger] chars::lowered_char(t[i])[k],
        ) by {
            assert(t[i] == s[i + 1]);
            assert(!chars::is_word_char(chars::lowered_char(s[i + 1])[k]));
        }
        lemma_none_lowers_to_a_letter(t);
        assert forall|i: int|
            0 <= i < snippets::lowered_each(s).len() implies !chars::is_word_char(
            #[trigger] snippets::lowered_each(s)[i],
        ) by {
            if i < head.len() {
                assert(snippets::lowered_each(s)[i] == head[i]);
            } else {
                assert(snippets::lowered_each(s)[i] == snippets::lowered_each(t)[i - head.len()]);
            }
        }
    }
}

/// Capitalisation changes nothing but case in an ASCII text, and never decides what is
/// dropped.
pub proof fn law_capitals_change_only_case(s: Seq<char>)
    requires
        chars::is_ascii_text(s),
    ensures
        chars::lowered_text(capitals::capitalized(s)) == chars::lowered_text(s),
        hallucination(capitals::capitalized(s)) == hallucination(s),
{
    capitals::lemma_ascii_capitals(s, s.len() as int);
    assert(chars::lowered_text(capitals::capitalized(s)) =~= chars::lowered_text(s));
}

/// A filler is one of seven words: a word of lowercase ASCII letters is removed if and only if it
/// is one of them.
pub proof fn law_the_seven_fillers(word: Seq<char>)
    requires
        forall|i: int| 0 <= i < word.len() ==> 'a' <= #[trigger] word[i] <= 'z',
    ensures
        filler(word) <==> word == "um"@ || word == "uh"@ || word == "erm"@ || word == "uhh"@ || word
            == "umm"@ || word == "hmm"@ || word == "mhm"@,
{
    sieve::lemma_filter_keeps_all(word, in_bare_word());
    assert(chars::is_ascii_text(word));
    assert(chars::lowered_text(word) =~= word);
    let f = fillers();
    assert(f[0] == "um"@ && f[1] == "uh"@ && f[2] == "erm"@ && f[3] == "uhh"@ && f[4] == "umm"@
        && f[5] == "hmm"@ && f[6] == "mhm"@);
}

/// Punctuation around and inside a word does not matter to whether it is a filler, nor does the case
/// of ASCII letters.
pub proof fn law_a_filler_in_any_dress(front: Seq<char>, mark: char, back: Seq<char>, other: Seq<char>)
    requires
        !chars::is_word_char(mark),
        mark != '\'',
    ensures
        filler(front + seq![mark] + back) == filler(front + back),
        chars::is_ascii_text(front) && front.len() == other.len() && chars::is_ascii_text(other) && (
        forall|i: int|
            0 <= i < front.len() ==> chars::ascii_lowered(#[trigger] front[i]) == chars::ascii_lowered(
                other[i],
            )) ==> filler(front) == filler(other),
{
    let p = in_bare_word();
    Seq::filter_distributes_over_add(front + seq![mark], back, p);
    Seq::filter_distributes_over_add(front, seq![mark], p);
    Seq::filter_distributes_over_add(front, back, p);
    sieve::lemma_filter_one(mark, p);
    assert((front + seq![mark] + back).filter(p) =~= (front + back).filter(p));
    if chars::is_ascii_text(front) && front.len() == other.len() && chars::is_ascii_text(other) && (
    forall|i: int|
        0 <= i < front.len() ==> chars::ascii_lowered(#[trigger] front[i]) == chars::ascii_lowered(
            other[i],
        )) {
        lemma_filtered_alike(front, other);
    }
}

proof fn lemma_filtered_alike(s: Seq<char>, t: Seq<char>)
    requires
        chars::is_ascii_text(s),
        chars::is_ascii_text(t),
        s.len() == t.len(),
        forall|i: int|
            0 <= i < s.len() ==> chars::ascii_lowered(#[trigger] s[i]) == chars::ascii_lowered(t[i]),
    ensures
        chars::is_ascii_text(s.filter(in_bare_word())),
        chars::is_ascii_text(t.filter(in_bare_word())),
        chars::lowered_text(s.filter(in_bare_word())) == chars::lowered_text(
            t.filter(in_bare_word()),
        ),
    decreases s.len(),
{
    reveal(Seq::filter);
    let p = in_bare_word();
    if s.len() > 0 {
        let n = s.len() - 1;
        let x = s.drop_last();
        let y = t.drop_last();
        assert forall|i: int| 0 <= i < x.len() implies chars::is_ascii_char(#[trigger] x[i]) by {
            assert(x[i] == s[i]);
        }
        assert forall|i: int| 0 <= i < y.len() implies chars::is_ascii_char(#[trigger] y[i]) by {
            assert(y[i] == t[i]);
        }
        assert forall|i: int| 0 <= i < x.len() implies chars::ascii_lowered(#[trigger] x[i])
            == chars::ascii_lowered(y[i]) by {
            assert(x[i] == s[i] && y[i] == t[i]);
        }
        lemma_filtered_alike(x, y);
        assert(chars::is_ascii_char(s[n]) && chars::is_ascii_char(t[n]));
        assert(chars::ascii_lowered(s[n]) == chars::ascii_lowered(t[n]));
        assert(p(s[n]) == p(t[n]));
        let a = x.filter(p);
        let b = y.filter(p);
        if p(s[n]) {
            assert forall|i: int| 0 <= i < a.push(s[n]).len() implies chars::is_ascii_char(
                #[trigger] a.push(s[n])[i],
            ) by {
                if i < a.len() {
                    assert(a.push(s[n])[i] == a[i]);
                }
            }
            assert forall|i: int| 0 <= i < b.push(t[n]).len() implies chars::is_ascii_char(
                #[trigger] b.push(t[n])[i],
            ) by {
                if i < b.len() {
                    assert(b.push(t[n])[i] == b[i]);
                }
            }
            assert(a.len() == chars::lowered_text(a).len() && b.len() == chars::lowered_text(b).len());
            assert(chars::lowered_text(a.push(s[n])) =~= chars::lowered_text(a).push(
                chars::ascii_lowered(s[n]),
            ));
            assert(chars::lowered_text(b.push(t[n])) =~= chars::lowered_text(b).push(
                chars::ascii_lowered(t[n]),
            ));
        }
    } else {
        assert(s =~= t);
    }
}

/// A text of lowercase ASCII letters and single spaces is its own normal form.
proof fn lemma_normal_already(s: Seq<char>)
    requires
        tidy(s),
        forall|i: int| 0 <= i < s.len() ==> 'a' <= #[trigger] s[i] <= 'z' || s[i] == ' ',
    ensures
        normalised(s) == s,
{
    assert(chars::is_ascii_text(s));
    assert(chars::lowered_text(s) =~= s);
    sieve::lemma_filter_keeps_all(s, in_bare_phrase());
    lemma_tidy_is_joined(s);
}

/// What is dropped as a whole is nothing, or one of seven phrases: a text of lowercase ASCII letters
/// with single spaces between its words is dropped if and only if it is one of these.
pub proof fn law_the_seven_stock_phrases(s: Seq<char>)
    requires
        tidy(s),
        forall|i: int| 0 <= i < s.len() ==> 'a' <= #[trigger] s[i] <= 'z' || s[i] == ' ',
    ensures
        hallucination(s) <==> s.len() == 0 || s == "thank you"@ || s == "thanks for watching"@ || s
            == "thank you for watching"@ || s == "please subscribe"@ || s
            == "subtitles by the amaraorg community"@ || s == "you"@ || s == "bye"@,
{
    lemma_normal_already(s);
    lemma_stock_phrases_in_normal_form();
    let h = hallucinations();
    if hallucination(s) && s.len() > 0 {
        let i = choose|i: int|
            0 <= i < h.len() && normalised(s) == normalised(#[trigger] h[i]);
        assert(normalised(h[i]) == s);
    }
    assert(h[0] == "thank you"@ && h[1] == "thanks for watching"@ && h[2]
        == "thank you for watching"@ && h[3] == "please subscribe"@ && h[5] == "you"@ && h[6]
        == "bye"@);
}

/// What is kept of a transcript is kept word by word, however long it is: of two texts with white
/// space between them, what is kept of the one and then what is kept of the other.
proof fn lemma_kept_word_by_word(a: Seq<char>, blank: char, b: Seq<char>, remove_fillers: bool)
    requires
        chars::is_space(blank),
        forall|i: int| 0 <= i < a.len() ==> !annotations::is_closer(#[trigger] a[i]),
        forall|i: int| 0 <= i < b.len() ==> !annotations::is_closer(#[trigger] b[i]),
    ensures
        kept_words(a + seq![blank] + b, remove_fillers) == kept_words(a, remove_fillers)
            + kept_words(b, remove_fillers),
{
    let all = a + seq![blank] + b;
    assert forall|i: int| 0 <= i < all.len() implies !annotations::is_closer(#[trigger] all[i]) by {
        if i < a.len() {
            assert(all[i] == a[i]);
        } else if i > a.len() {
            assert(all[i] == b[i - a.len() - 1]);
        }
    }
    annotations::law_unclosed_text_is_kept(all);
    annotations::law_unclosed_text_is_kept(a);
    annotations::law_unclosed_text_is_kept(b);
    words::lemma_words_around_space(a, blank, b);
    Seq::filter_distributes_over_add(words::words(a), words::words(b), not_filler());
}

/// Cleaning goes word by word, however long the transcript is. Where two texts without brackets both
/// come to something, and so do they with white space between them, that is the one and the other
/// with one space between.
pub proof fn law_cleaning_goes_word_by_word(
    a: Seq<char>,
    blank: char,
    b: Seq<char>,
    remove_fillers: bool,
)
    requires
        chars::is_space(blank),
        forall|i: int|
            0 <= i < a.len() ==> #[trigger] a[i] != '[' && a[i] != ']' && a[i] != '(' && a[i] != ')',
        forall|i: int|
            0 <= i < b.len() ==> #[trigger] b[i] != '[' && b[i] != ']' && b[i] != '(' && b[i] != ')',
        cleaned(a, remove_fillers, false).len() > 0,
        cleaned(b, remove_fillers, false).len() > 0,
        !hallucination(
            cleaned(a, remove_fillers, false) + seq![' '] + cleaned(b, remove_fillers, false),
        ),
    ensures
        cleaned(a + seq![blank] + b, remove_fillers, false) == cleaned(a, remove_fillers, false)
            + seq![' '] + cleaned(b, remove_fillers, false),
{
    lemma_kept_word_by_word(a, blank, b, remove_fillers);
    let x = kept_words(a, remove_fillers);
    let y = kept_words(b, remove_fillers);
    if x.len() == 0 {
        assert(words::joined(x, seq![' ']).len() == 0);
    }
    if y.len() == 0 {
        assert(words::joined(y, seq![' ']).len() == 0);
    }
    words::law_everything_is_joined(x, y, seq![' ']);
}

/// A single word comes out as it went in, unless it is a filler to be removed or is dropped as a
/// whole, and then nothing does. What is removed as a filler leaves no trace beside other words.
pub proof fn law_a_word_is_kept_or_removed(
    word: Seq<char>,
    blank: char,
    rest: Seq<char>,
    remove_fillers: bool,
)
    requires
        word.len() > 0,
        chars::is_space(blank),
        forall|i: int|
            0 <= i < word.len() ==> !chars::is_space(#[trigger] word[i]) && word[i] != '[' && word[i]
                != ']' && word[i] != '(' && word[i] != ')',
        forall|i: int|
            0 <= i < rest.len() ==> #[trigger] rest[i] != '[' && rest[i] != ']' && rest[i] != '('
                && rest[i] != ')',
    ensures
        !hallucination(word) && !(remove_fillers && filler(word)) ==> cleaned(
            word,
            remove_fillers,
            false,
        ) == word,
        remove_fillers && filler(word) ==> cleaned(word, remove_fillers, false).len() == 0 && cleaned(
            word + seq![blank] + rest,
            remove_fillers,
            false,
        ) == cleaned(rest, remove_fillers, false) && cleaned(
            rest + seq![blank] + word,
            remove_fillers,
            false,
        ) == cleaned(rest, remove_fillers, false),
        hallucination(word) ==> cleaned(word, remove_fillers, false).len() == 0,
{
    assert forall|i: int| 0 <= i < word.len() implies !annotations::is_closer(#[trigger] word[i]) by {
        assert(word[i] != ']' && word[i] != ')');
    }
    annotations::law_unclosed_text_is_kept(word);
    words::lemma_words_of_word(word);
    sieve::lemma_filter_one(word, not_filler());
    lemma_kept_word_by_word(word, blank, rest, remove_fillers);
    lemma_kept_word_by_word(rest, blank, word, remove_fillers);
    let none = Seq::<Seq<char>>::empty();
    let y = kept_words(rest, remove_fillers);
    assert(none + y =~= y);
    assert(y + none =~= y);
}

/// Annotations come off first, and capitals last: a transcript comes to what it comes to without its
/// annotations, and capitalised to what it comes to otherwise, capitalised.
pub proof fn law_annotations_first_capitals_last(raw: Seq<char>, remove_fillers: bool, autocapitalize: bool)
    ensures
        cleaned(raw, remove_fillers, autocapitalize) == cleaned(
            annotations::stripped(raw),
            remove_fillers,
            autocapitalize,
        ),
        cleaned(raw, remove_fillers, false).len() > 0 && !hallucination(
            capitals::capitalized(cleaned(raw, remove_fillers, false)),
        ) ==> cleaned(raw, remove_fillers, true) == capitals::capitalized(
            cleaned(raw, remove_fillers, false),
        ),
        !hallucination(cleaned(raw, remove_fillers, autocapitalize)) || cleaned(
            raw,
            remove_fillers,
            autocapitalize,
        ).len() == 0,
{
    annotations::law_stripping_twice_is_stripping_once(raw);
}

/// In any script a word is a filler if and only if its letters, digits and apostrophes in lowercase
/// are one of the seven.
pub proof fn law_a_filler_in_any_script(word: Seq<char>)
    ensures
        ({
            let bare = chars::lowered_text(
                word.filter(|c: char| chars::is_word_char(c) || c == '\''),
            );
            filler(word) <==> bare == "um"@ || bare == "uh"@ || bare == "erm"@ || bare == "uhh"@ || bare
                == "umm"@ || bare == "hmm"@ || bare == "mhm"@
        }),
{
    assert(in_bare_word() =~= (|c: char| chars::is_word_char(c) || c == '\''));
    let f = fillers();
    assert(f[0] == "um"@ && f[1] == "uh"@ && f[2] == "erm"@ && f[3] == "uhh"@ && f[4] == "umm"@
        && f[5] == "hmm"@ && f[6] == "mhm"@);
}

/// In any script a text is dropped if and only if the words of its letters, digits and white space in
/// lowercase, with one space between them, are none at all or one of the seven phrases.
pub proof fn law_a_stock_phrase_in_any_script(s: Seq<char>)
    ensures
        ({
            let bare = words::joined(
                words::words(
                    chars::lowered_text(s).filter(
                        |c: char| chars::is_word_char(c) || chars::is_space(c),
                    ),
                ),
                seq![' '],
            );
            hallucination(s) <==> bare.len() == 0 || bare == "thank you"@ || bare
                == "thanks for watching"@ || bare == "thank you for watching"@ || bare
                == "please subscribe"@ || bare == "subtitles by the amaraorg community"@ || bare
                == "you"@ || bare == "bye"@
        }),
{
    assert(in_bare_phrase() =~= (|c: char| chars::is_word_char(c) || chars::is_space(c)));
    lemma_stock_phrases_in_normal_form();
    let h = hallucinations();
    let n = normalised(s);
    if hallucination(s) && n.len() > 0 {
        let i = choose|i: int|
            0 <= i < h.len() && normalised(s) == normalised(#[trigger] h[i]);
        assert(normalised(h[i]) == n);
    }
    assert(h[0] == "thank you"@ && h[1] == "thanks for watching"@ && h[2]
        == "thank you for watching"@ && h[3] == "please subscribe"@ && h[5] == "you"@ && h[6]
        == "bye"@);
}

/// The stock phrases in the form that texts are held against.
proof fn lemma_stock_phrases_in_normal_form()
    ensures
        normalised(hallucinations()[0]) == "thank you"@,
        normalised(hallucinations()[1]) == "thanks for watching"@,
        normalised(hallucinations()[2]) == "thank you for watching"@,
        normalised(hallucinations()[3]) == "please subscribe"@,
        normalised(hallucinations()[4]) == "subtitles by the amaraorg community"@,
        normalised(hallucinations()[5]) == "you"@,
        normalised(hallucinations()[6]) == "bye"@,
        hallucinations().len() == 7,
{
    reveal_strlit("thank you");
    reveal_strlit("thanks for watching");
    reveal_strlit("thank you for watching");
    reveal_strlit("please subscribe");
    reveal_strlit("subtitles by the amara.org community");
    reveal_strlit("subtitles by the amaraorg community");
    reveal_strlit("you");
    reveal_strlit("bye");
    lemma_normal_already("thank you"@);
    lemma_normal_already("thanks for watching"@);
    lemma_normal_already("thank you for watching"@);
    lemma_normal_already("please subscribe"@);
    lemma_normal_already("subtitles by the amaraorg community"@);
    lemma_normal_already("you"@);
    lemma_normal_already("bye"@);
    let dotted = "subtitles by the amara.org community"@;
    let plain = "subtitles by the amaraorg community"@;
    let front = dotted.take(22);
    let back = dotted.skip(23);
    let p = in_bare_phrase();
    assert(dotted =~= front + seq!['.'] + back);
    assert(plain =~= front + back);
    assert(chars::is_ascii_text(dotted));
    assert(chars::is_ascii_text(plain));
    assert(chars::lowered_text(dotted) =~= dotted);
    assert(chars::lowered_text(plain) =~= plain);
    Seq::filter_distributes_over_add(front + seq!['.'], back, p);
    Seq::filter_distributes_over_add(front, seq!['.'], p);
    Seq::filter_distributes_over_add(front, back, p);
    sieve::lemma_filter_one('.', p);
    assert(dotted.filter(p) =~= plain.filter(p));
}

} // verus!
