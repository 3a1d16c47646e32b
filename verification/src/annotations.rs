//! Bracketed annotations: `[BLANK_AUDIO]`, `(wind blowing)` and their like.
//!
//! A span is an opening bracket, what follows it, and the bracket that closes it. Only closed
//! spans are annotations; a stray bracket is text that somebody dictated.

use vstd::prelude::*;

use crate::chars::{chars_of, string_of};

verus! {

pub open spec fn is_opener(c: char) -> bool {
    c == '[' || c == '('
}

pub open spec fn is_closer(c: char) -> bool {
    c == ']' || c == ')'
}

/// The opening bracket that a closing bracket belongs to.
pub open spec fn opener_of(closer: char) -> char {
    if closer == ']' {
        '['
    } else {
        '('
    }
}

/// Whether `c` closes a span that `opener` opened.
pub open spec fn closes(c: char, opener: char) -> bool {
    is_closer(c) && opener_of(c) == opener
}

/// Where the span that `opener` opened is closed, looking from `p` on.
///
/// A bracket opened inside must be closed first: where it never is, neither is this one. A
/// closing bracket of the other kind is ordinary text.
pub open spec fn closing(s: Seq<char>, opener: char, p: int) -> Option<int>
    decreases s.len() - p,
{
    if p < 0 || p >= s.len() {
        None
    } else if closes(s[p], opener) {
        Some(p)
    } else if is_opener(s[p]) {
        match closing(s, s[p], p + 1) {
            Some(q) if p < q < s.len() => closing(s, opener, q + 1),
            _ => None,
        }
    } else {
        closing(s, opener, p + 1)
    }
}

/// The text from `p` on, without its closed spans.
pub open spec fn stripped_from(s: Seq<char>, p: int) -> Seq<char>
    decreases s.len() - p,
{
    if p < 0 || p >= s.len() {
        seq![]
    } else if is_opener(s[p]) {
        match closing(s, s[p], p + 1) {
            Some(q) if p < q < s.len() => stripped_from(s, q + 1),
            _ => seq![s[p]] + stripped_from(s, p + 1),
        }
    } else {
        seq![s[p]] + stripped_from(s, p + 1)
    }
}

/// The text without its closed spans.
pub open spec fn stripped(s: Seq<char>) -> Seq<char> {
    stripped_from(s, 0)
}

/// A closing bracket stands at or after the place where the search began.
pub proof fn lemma_closing_in_range(s: Seq<char>, opener: char, p: int)
    ensures
        closing(s, opener, p) matches Some(q) ==> p <= q < s.len() && closes(s[q], opener),
    decreases s.len() - p,
{
    if p < 0 || p >= s.len() {
    } else if closes(s[p], opener) {
    } else if is_opener(s[p]) {
        match closing(s, s[p], p + 1) {
            Some(q) if p < q < s.len() => lemma_closing_in_range(s, opener, q + 1),
            _ => {},
        }
    } else {
        lemma_closing_in_range(s, opener, p + 1);
    }
}

/// One character at a time: what has been kept, and the brackets still open with the place
/// of each in what has been kept.
spec fn step(kept: Seq<char>, open: Seq<(char, int)>, c: char) -> (Seq<char>, Seq<(char, int)>) {
    if is_opener(c) {
        (kept.push(c), open.push((c, kept.len() as int)))
    } else if open.len() > 0 && closes(c, open.last().0) {
        (kept.take(open.last().1), open.drop_last())
    } else {
        (kept.push(c), open)
    }
}

/// What is kept once every character from `p` on has been taken.
spec fn run_from(s: Seq<char>, p: int, kept: Seq<char>, open: Seq<(char, int)>) -> Seq<char>
    decreases s.len() - p,
{
    if p < 0 || p >= s.len() {
        kept
    } else {
        let (kept2, open2) = step(kept, open, s[p]);
        run_from(s, p + 1, kept2, open2)
    }
}

/// A span on top of the open brackets that is closed at `q` leaves, with all it holds.
proof fn lemma_run_closed(
    s: Seq<char>,
    p: int,
    kept: Seq<char>,
    open: Seq<(char, int)>,
    top: (char, int),
)
    requires
        0 <= p,
        0 <= top.1 <= kept.len(),
        is_opener(top.0),
        closing(s, top.0, p) is Some,
    ensures
        run_from(s, p, kept, open.push(top)) == run_from(
            s,
            closing(s, top.0, p).unwrap() + 1,
            kept.take(top.1),
            open,
        ),
    decreases s.len() - p,
{
    let stack = open.push(top);
    assert(stack.last() == top);
    assert(stack.drop_last() == open);
    let c = s[p];
    if closes(c, top.0) {
        assert(!is_opener(c));
    } else if is_opener(c) {
        let q = closing(s, c, p + 1).unwrap();
        assert(p < q < s.len());
        lemma_run_closed(s, p + 1, kept.push(c), stack, (c, kept.len() as int));
        assert(kept.push(c).take(kept.len() as int) == kept);
        lemma_run_closed(s, q + 1, kept, open, top);
    } else {
        lemma_run_closed(s, p + 1, kept.push(c), open, top);
        assert(kept.push(c).take(top.1) == kept.take(top.1));
    }
}

/// Where the bracket on top is never closed, the rest only adds to what has been kept.
proof fn lemma_run_unclosed(s: Seq<char>, p: int, kept: Seq<char>, open: Seq<(char, int)>)
    requires
        0 <= p,
        open.len() > 0 ==> closing(s, open.last().0, p) is None,
    ensures
        run_from(s, p, kept, open) == kept + stripped_from(s, p),
    decreases s.len() - p,
{
    if p >= s.len() {
        assert(kept + stripped_from(s, p) == kept);
    } else {
        let c = s[p];
        if is_opener(c) {
            let top = (c, kept.len() as int);
            lemma_closing_in_range(s, c, p + 1);
            match closing(s, c, p + 1) {
                Some(q) => {
                    lemma_run_closed(s, p + 1, kept.push(c), open, top);
                    assert(kept.push(c).take(kept.len() as int) == kept);
                    lemma_run_unclosed(s, q + 1, kept, open);
                },
                None => {
                    assert(open.push(top).last() == top);
                    lemma_run_unclosed(s, p + 1, kept.push(c), open.push(top));
                    assert(kept.push(c) + stripped_from(s, p + 1) == kept + (seq![c]
                        + stripped_from(s, p + 1)));
                },
            }
        } else {
            lemma_run_unclosed(s, p + 1, kept.push(c), open);
            assert(kept.push(c) + stripped_from(s, p + 1) == kept + (seq![c] + stripped_from(
                s,
                p + 1,
            )));
        }
    }
}

/// The open brackets of the loop, in the terms of `step`.
spec fn open_view(open: Seq<(char, usize)>) -> Seq<(char, int)> {
    Seq::new(open.len(), |i: int| (open[i].0, open[i].1 as int))
}

/// Removes `[...]` and `(...)` spans. Only closed spans are removed.
pub fn strip_annotations(s: &str) -> (out: String)
    ensures
        out@ == stripped(s@),
{
    let text: Vec<char> = chars_of(s);
    let mut kept: Vec<char> = Vec::new();
    // One stack, holding each opening bracket with its place in `kept`.
    let mut open: Vec<(char, usize)> = Vec::new();
    proof {
        lemma_run_unclosed(s@, 0, kept@, open_view(open@));
        assert(kept@ + stripped(s@) == stripped(s@));
    }
    let mut p: usize = 0;
    while p < text.len()
        invariant
            text@ == s@,
            p <= text@.len(),
            run_from(s@, p as int, kept@, open_view(open@)) == stripped(s@),
            forall|i: int| 0 <= i < open@.len() ==> (#[trigger] open@[i]).1 <= kept@.len(),
            forall|i: int, j: int| 0 <= i < j < open@.len() ==> open@[i].1 <= open@[j].1,
        decreases text@.len() - p,
    {
        let c: char = text[p];
        let ghost before = open@;
        if c == '[' || c == '(' {
            open.push((c, kept.len()));
            kept.push(c);
            assert(open_view(open@) == open_view(before).push((c, kept@.len() - 1)));
        } else {
            let matched: bool = if open.len() == 0 {
                false
            } else if c == ']' {
                open[open.len() - 1].0 == '['
            } else {
                c == ')' && open[open.len() - 1].0 == '('
            };
            assert(matched == (open_view(open@).len() > 0 && closes(c, open_view(open@).last().0)));
            if matched {
                let ghost at = open@.last().1;
                match open.pop() {
                    Some(top) => {
                        kept.truncate(top.1);
                    },
                    None => {},
                }
                assert(open_view(open@) == open_view(before).drop_last());
                assert(forall|i: int| 0 <= i < open@.len() ==> (#[trigger] open@[i]) == before[i]);
            } else {
                kept.push(c);
            }
        }
        p += 1;
    }
    string_of(kept.as_slice())
}

/// Text without brackets is left alone.
pub proof fn law_text_without_brackets_is_kept(s: Seq<char>)
    requires
        forall|i: int| 0 <= i < s.len() ==> !is_opener(#[trigger] s[i]) && !is_closer(s[i]),
    ensures
        stripped(s) == s,
{
    law_unclosed_text_is_kept(s);
}

/// An opening bracket that nothing closes removes nothing: without a closing bracket the
/// whole text is kept.
pub proof fn law_unclosed_text_is_kept(s: Seq<char>)
    requires
        forall|i: int| 0 <= i < s.len() ==> !is_closer(#[trigger] s[i]),
    ensures
        stripped(s) == s,
{
    lemma_kept_from(s, 0);
    assert(s.skip(0) == s);
}

proof fn lemma_kept_from(s: Seq<char>, p: int)
    requires
        0 <= p <= s.len(),
        forall|i: int| 0 <= i < s.len() ==> !is_closer(#[trigger] s[i]),
    ensures
        stripped_from(s, p) == s.skip(p),
    decreases s.len() - p,
{
    if p < s.len() {
        lemma_kept_from(s, p + 1);
        lemma_closing_in_range(s, s[p], p + 1);
        assert(closing(s, s[p], p + 1) is None);
        assert(s.skip(p) == seq![s[p]] + s.skip(p + 1));
    }
}

/// Text without an opening bracket stays in front of what stripping leaves of the rest.
pub proof fn law_text_before_the_first_bracket_is_kept(before: Seq<char>, after: Seq<char>)
    requires
        forall|i: int| 0 <= i < before.len() ==> !is_opener(#[trigger] before[i]),
    ensures
        stripped(before + after) == before + stripped(after),
{
    let s = before + after;
    let p = before.len() as int;
    assert forall|i: int| 0 <= i < p implies !is_opener(#[trigger] s[i]) by {
        assert(s[i] == before[i]);
    }
    lemma_stripped_past_plain(s, 0, p);
    lemma_stripped_shift(s, p, p);
    assert(s.subrange(0, p) == before);
    assert(s.skip(p) == after);
}

/// Text with no opening bracket is kept up to where one may stand.
proof fn lemma_stripped_past_plain(s: Seq<char>, p: int, q: int)
    requires
        0 <= p <= q <= s.len(),
        forall|i: int| p <= i < q ==> !is_opener(#[trigger] s[i]),
    ensures
        stripped_from(s, p) == s.subrange(p, q) + stripped_from(s, q),
    decreases q - p,
{
    if p < q {
        lemma_stripped_past_plain(s, p + 1, q);
        assert(!is_opener(s[p]));
        assert(s.subrange(p, q) == seq![s[p]] + s.subrange(p + 1, q));
        assert(stripped_from(s, p) == s.subrange(p, q) + stripped_from(s, q));
    } else {
        assert(s.subrange(p, q) + stripped_from(s, q) == stripped_from(s, q));
    }
}

/// Where a span is closed does not depend on the text before it.
proof fn lemma_closing_shift(s: Seq<char>, k: int, opener: char, p: int)
    requires
        0 <= k <= p,
        k <= s.len(),
    ensures
        closing(s.skip(k), opener, p - k) == (match closing(s, opener, p) {
            Some(q) => Some(q - k),
            None => None::<int>,
        }),
    decreases s.len() - p,
{
    let t = s.skip(k);
    if p < s.len() {
        assert(t[p - k] == s[p]);
        if closes(s[p], opener) {
        } else if is_opener(s[p]) {
            lemma_closing_shift(s, k, s[p], p + 1);
            lemma_closing_in_range(s, s[p], p + 1);
            match closing(s, s[p], p + 1) {
                Some(q) => lemma_closing_shift(s, k, opener, q + 1),
                None => {},
            }
        } else {
            lemma_closing_shift(s, k, opener, p + 1);
        }
    }
}

/// What stripping keeps from `p` on does not depend on the text before it.
proof fn lemma_stripped_shift(s: Seq<char>, k: int, p: int)
    requires
        0 <= k <= p,
        k <= s.len(),
    ensures
        stripped_from(s.skip(k), p - k) == stripped_from(s, p),
    decreases s.len() - p,
{
    let t = s.skip(k);
    if p < s.len() {
        assert(t[p - k] == s[p]);
        if is_opener(s[p]) {
            lemma_closing_shift(s, k, s[p], p + 1);
            lemma_closing_in_range(s, s[p], p + 1);
            match closing(s, s[p], p + 1) {
                Some(q) => lemma_stripped_shift(s, k, q + 1),
                None => lemma_stripped_shift(s, k, p + 1),
            }
        } else {
            lemma_stripped_shift(s, k, p + 1);
        }
    }
}

/// The state after the whole of `s`, from nothing.
spec fn replay(s: Seq<char>) -> (Seq<char>, Seq<(char, int)>)
    decreases s.len(),
{
    if s.len() == 0 {
        (seq![], seq![])
    } else {
        let (kept, open) = replay(s.drop_last());
        step(kept, open, s.last())
    }
}

/// What a replay keeps is what a run keeps.
proof fn lemma_replay_is_run(s: Seq<char>, p: int)
    requires
        0 <= p <= s.len(),
    ensures
        run_from(s, p, replay(s.take(p)).0, replay(s.take(p)).1) == replay(s).0,
    decreases s.len() - p,
{
    if p == s.len() {
        assert(s.take(p) == s);
    } else {
        assert(s.take(p + 1).drop_last() == s.take(p));
        assert(s.take(p + 1).last() == s[p]);
        lemma_replay_is_run(s, p + 1);
    }
}

/// What has been kept replays to itself, and so does what had been kept at each bracket
/// that is still open.
spec fn settled(kept: Seq<char>, open: Seq<(char, int)>) -> bool {
    &&& replay(kept) == (kept, open)
    &&& forall|i: int|
        0 <= i < open.len() ==> {
            let at = (#[trigger] open[i]).1;
            &&& 0 <= at <= kept.len()
            &&& replay(kept.take(at)) == (kept.take(at), open.take(i))
        }
}

proof fn lemma_settled(s: Seq<char>)
    ensures
        settled(replay(s).0, replay(s).1),
    decreases s.len(),
{
    if s.len() > 0 {
        lemma_settled(s.drop_last());
        let (kept, open) = replay(s.drop_last());
        let c = s.last();
        let (kept2, open2) = step(kept, open, c);
        if !is_opener(c) && open.len() > 0 && closes(c, open.last().0) {
            let n = open.len() - 1;
            assert(open[n] == open.last());
            assert(open.take(n) == open.drop_last());
            assert forall|i: int| 0 <= i < open2.len() implies {
                let at = (#[trigger] open2[i]).1;
                &&& 0 <= at <= kept2.len()
                &&& replay(kept2.take(at)) == (kept2.take(at), open2.take(i))
            } by {
                assert(open2[i] == open[i]);
                lemma_open_places_ascend(s.drop_last());
                assert(kept2.take(open[i].1) == kept.take(open[i].1));
                assert(open2.take(i) == open.take(i));
            }
        } else {
            assert(kept2.drop_last() == kept);
            assert(kept2.last() == c);
            assert forall|i: int| 0 <= i < open2.len() implies {
                let at = (#[trigger] open2[i]).1;
                &&& 0 <= at <= kept2.len()
                &&& replay(kept2.take(at)) == (kept2.take(at), open2.take(i))
            } by {
                if i < open.len() {
                    assert(open2[i] == open[i]);
                    assert(kept2.take(open[i].1) == kept.take(open[i].1));
                    assert(open2.take(i) == open.take(i));
                } else {
                    assert(kept2.take(kept.len() as int) == kept);
                    assert(open2.take(i) == open);
                }
            }
        }
    }
}

/// Open brackets stand in what has been kept in the order in which they were opened.
proof fn lemma_open_places_ascend(s: Seq<char>)
    ensures
        forall|i: int|
            0 <= i < replay(s).1.len() ==> 0 <= (#[trigger] replay(s).1[i]).1 < replay(s).0.len(),
        forall|i: int, j: int|
            0 <= i < j < replay(s).1.len() ==> (#[trigger] replay(s).1[i]).1 < (
            #[trigger] replay(s).1[j]).1,
    decreases s.len(),
{
    if s.len() > 0 {
        lemma_open_places_ascend(s.drop_last());
        let (kept, open) = replay(s.drop_last());
        let (kept2, open2) = step(kept, open, s.last());
        assert forall|i: int| 0 <= i < open2.len() implies 0 <= (#[trigger] open2[i]).1
            < kept2.len() by {
            if i < open.len() {
                assert(open2[i] == open[i]);
                if open2.len() < open.len() {
                    assert(open[i].1 < open[open.len() - 1].1);
                }
            }
        }
        assert forall|i: int, j: int| 0 <= i < j < open2.len() implies (#[trigger] open2[i]).1 < (
        #[trigger] open2[j]).1 by {
            assert(open2[i] == open[i]);
            if j < open.len() {
                assert(open2[j] == open[j]);
            }
        }
    }
}

/// Stripping once is enough: what is left holds no closed span.
pub proof fn law_stripping_twice_is_stripping_once(s: Seq<char>)
    ensures
        stripped(stripped(s)) == stripped(s),
{
    lemma_stripped_is_replayed(s);
    lemma_settled(s);
    lemma_stripped_is_replayed(stripped(s));
}

proof fn lemma_stripped_is_replayed(s: Seq<char>)
    ensures
        stripped(s) == replay(s).0,
{
    lemma_replay_is_run(s, 0);
    assert(s.take(0) == Seq::<char>::empty());
    lemma_run_unclosed(s, 0, seq![], seq![]);
    assert(Seq::<char>::empty() + stripped(s) == stripped(s));
}

/// What comes after depends on nothing but where the text before has led.
proof fn lemma_replay_goes_on(a: Seq<char>, b: Seq<char>, after: Seq<char>)
    requires
        replay(a) == replay(b),
    ensures
        replay(a + after) == replay(b + after),
    decreases after.len(),
{
    if after.len() == 0 {
        assert(a + after =~= a);
        assert(b + after =~= b);
    } else {
        lemma_replay_goes_on(a, b, after.drop_last());
        assert((a + after).drop_last() =~= a + after.drop_last());
        assert((b + after).drop_last() =~= b + after.drop_last());
        assert((a + after).last() == after.last());
        assert((b + after).last() == after.last());
    }
}

/// Text without brackets is only kept.
proof fn lemma_replay_plain(s: Seq<char>, inside: Seq<char>)
    requires
        forall|i: int|
            0 <= i < inside.len() ==> !is_opener(#[trigger] inside[i]) && !is_closer(inside[i]),
    ensures
        replay(s + inside) == (replay(s).0 + inside, replay(s).1),
    decreases inside.len(),
{
    if inside.len() == 0 {
        assert(s + inside =~= s);
        assert(replay(s).0 + inside =~= replay(s).0);
    } else {
        let front = inside.drop_last();
        assert forall|i: int| 0 <= i < front.len() implies !is_opener(#[trigger] front[i])
            && !is_closer(front[i]) by {
            assert(front[i] == inside[i]);
        }
        lemma_replay_plain(s, front);
        let c = inside[inside.len() - 1];
        assert(!is_opener(c) && !is_closer(c));
        assert((s + inside).drop_last() =~= s + front);
        assert((s + inside).last() == c);
        assert((replay(s).0 + front).push(c) =~= replay(s).0 + inside);
    }
}

/// A closed span goes, with all it holds, wherever it stands: stripping leaves what it would
/// without the span.
pub proof fn law_closed_span_is_removed(
    before: Seq<char>,
    opener: char,
    inside: Seq<char>,
    closer: char,
    after: Seq<char>,
)
    requires
        is_opener(opener),
        closes(closer, opener),
        forall|i: int|
            0 <= i < inside.len() ==> !is_opener(#[trigger] inside[i]) && !is_closer(inside[i]),
    ensures
        stripped(before + seq![opener] + inside + seq![closer] + after) == stripped(before + after),
{
    let (kept, open) = replay(before);
    let opened = before + seq![opener];
    assert(opened.drop_last() =~= before);
    assert(replay(opened) == (kept.push(opener), open.push((opener, kept.len() as int))));
    lemma_replay_plain(opened, inside);
    let filled = opened + inside;
    let span = filled + seq![closer];
    assert(span.drop_last() =~= filled);
    assert(!is_opener(closer));
    assert(replay(filled).1.last() == (opener, kept.len() as int));
    assert((kept.push(opener) + inside).take(kept.len() as int) =~= kept);
    assert(open.push((opener, kept.len() as int)).drop_last() =~= open);
    assert(replay(span) == (kept, open));
    lemma_replay_goes_on(span, before, after);
    lemma_stripped_is_replayed(span + after);
    lemma_stripped_is_replayed(before + after);
}

/// Holds of brackets.
pub open spec fn bracket() -> spec_fn(char) -> bool {
    |c: char| is_opener(c) || is_closer(c)
}

/// The brackets of a text, in order.
pub open spec fn brackets(s: Seq<char>) -> Seq<char> {
    s.filter(bracket())
}

/// The opening brackets that are still open at the end of `s`.
spec fn still_open(s: Seq<char>) -> Seq<char>
    decreases s.len(),
{
    if s.len() == 0 {
        seq![]
    } else {
        let open = still_open(s.drop_last());
        let c = s.last();
        if is_opener(c) {
            open.push(c)
        } else if open.len() > 0 && closes(c, open.last()) {
            open.drop_last()
        } else {
            open
        }
    }
}

/// Holds of a text in which no span is closed.
spec fn spanless(s: Seq<char>) -> bool
    decreases s.len(),
{
    s.len() == 0 || {
        let open = still_open(s.drop_last());
        &&& spanless(s.drop_last())
        &&& !(open.len() > 0 && closes(s.last(), open.last()))
    }
}

spec fn kinds(open: Seq<(char, int)>) -> Seq<char> {
    Seq::new(open.len(), |i: int| open[i].0)
}

proof fn lemma_still_open(s: Seq<char>)
    ensures
        kinds(replay(s).1) == still_open(s),
        replay(s).0.len() <= s.len(),
    decreases s.len(),
{
    if s.len() > 0 {
        let t = s.drop_last();
        lemma_still_open(t);
        lemma_open_places_ascend(t);
        let (kept, open) = replay(t);
        let c = s.last();
        if is_opener(c) {
            assert(kinds(open.push((c, kept.len() as int))) =~= kinds(open).push(c));
        } else if open.len() > 0 && closes(c, open.last().0) {
            assert(kinds(open).last() == open.last().0);
            assert(kinds(open.drop_last()) =~= kinds(open).drop_last());
        } else if open.len() > 0 {
            assert(kinds(open).last() == open.last().0);
        }
    } else {
        assert(kinds(replay(s).1) =~= still_open(s));
    }
}

/// A text is left as it is exactly when no span is closed in it.
proof fn lemma_spanless(s: Seq<char>)
    ensures
        spanless(s) == (replay(s).0 == s),
    decreases s.len(),
{
    if s.len() > 0 {
        let t = s.drop_last();
        lemma_spanless(t);
        lemma_still_open(t);
        lemma_open_places_ascend(t);
        let (kept, open) = replay(t);
        let c = s.last();
        let names = still_open(t);
        if open.len() > 0 {
            assert(names.last() == open.last().0);
        }
        if names.len() > 0 && closes(c, names.last()) {
            assert(!is_opener(c));
            assert(open[open.len() - 1] == open.last());
            assert(replay(s).0.len() < s.len());
        } else {
            assert(replay(s).0 == kept.push(c));
            assert(t.push(c) =~= s);
            if kept.push(c) == s {
                assert(kept =~= kept.push(c).drop_last());
                assert(s.drop_last() =~= t);
            }
        }
    } else {
        assert(replay(s).0 =~= s);
    }
}

/// Only the brackets of a text decide whether a span is closed in it.
proof fn lemma_only_brackets_count(s: Seq<char>)
    ensures
        still_open(s) == still_open(brackets(s)),
        spanless(s) == spanless(brackets(s)),
    decreases s.len(),
{
    reveal(Seq::filter);
    if s.len() > 0 {
        let t = s.drop_last();
        lemma_only_brackets_count(t);
        let c = s.last();
        if bracket()(c) {
            let b = brackets(t).push(c);
            assert(brackets(s) == b);
            assert(b.drop_last() =~= brackets(t));
            assert(b.last() == c);
        } else {
            assert(brackets(s) == brackets(t));
        }
    }
}

/// Whether stripping leaves a text as it is depends on its brackets alone.
pub proof fn law_brackets_alone_decide(s: Seq<char>, t: Seq<char>)
    requires
        brackets(s) == brackets(t),
    ensures
        stripped(s) == s <==> stripped(t) == t,
{
    lemma_stripped_is_replayed(s);
    lemma_stripped_is_replayed(t);
    lemma_spanless(s);
    lemma_spanless(t);
    lemma_only_brackets_count(s);
    lemma_only_brackets_count(t);
}

/// Text that opens nothing, and does not close the bracket opened last, is only kept.
proof fn lemma_replay_inside(s: Seq<char>, inside: Seq<char>)
    requires
        replay(s).1.len() > 0,
        forall|i: int|
            0 <= i < inside.len() ==> !is_opener(#[trigger] inside[i]) && !closes(
                inside[i],
                replay(s).1.last().0,
            ),
    ensures
        replay(s + inside) == (replay(s).0 + inside, replay(s).1),
    decreases inside.len(),
{
    if inside.len() == 0 {
        assert(s + inside =~= s);
        assert(replay(s).0 + inside =~= replay(s).0);
    } else {
        let front = inside.drop_last();
        assert forall|i: int| 0 <= i < front.len() implies !is_opener(#[trigger] front[i]) && !closes(
            front[i],
            replay(s).1.last().0,
        ) by {
            assert(front[i] == inside[i]);
        }
        lemma_replay_inside(s, front);
        let c = inside[inside.len() - 1];
        assert((s + inside).drop_last() =~= s + front);
        assert((s + inside).last() == c);
        assert((replay(s).0 + front).push(c) =~= replay(s).0 + inside);
    }
}

/// An annotation goes with all it holds, wherever it stands: from a square or a round bracket up to
/// the first that closes it, where no bracket is opened in between. What is left is what would have
/// been left without it.
pub proof fn law_an_annotation_goes_whole(
    before: Seq<char>,
    opener: char,
    inside: Seq<char>,
    closer: char,
    after: Seq<char>,
)
    requires
        (opener == '[' && closer == ']') || (opener == '(' && closer == ')'),
        forall|i: int|
            0 <= i < inside.len() ==> #[trigger] inside[i] != '[' && inside[i] != '(' && inside[i]
                != closer,
    ensures
        stripped(before + seq![opener] + inside + seq![closer] + after) == stripped(before + after),
{
    let (kept, open) = replay(before);
    let opened = before + seq![opener];
    assert(opened.drop_last() =~= before);
    assert(replay(opened) == (kept.push(opener), open.push((opener, kept.len() as int))));
    lemma_replay_inside(opened, inside);
    let filled = opened + inside;
    let span = filled + seq![closer];
    assert(span.drop_last() =~= filled);
    assert(replay(filled).1.last() == (opener, kept.len() as int));
    assert((kept.push(opener) + inside).take(kept.len() as int) =~= kept);
    assert(open.push((opener, kept.len() as int)).drop_last() =~= open);
    assert(replay(span) == (kept, open));
    lemma_replay_goes_on(span, before, after);
    lemma_stripped_is_replayed(span + after);
    lemma_stripped_is_replayed(before + after);
}

/// The bracket opened last is the last opening bracket of a text in which no span is closed.
proof fn lemma_last_opened(s: Seq<char>)
    requires
        spanless(s),
        still_open(s).len() > 0,
    ensures
        exists|i: int|
            0 <= i < s.len() && #[trigger] s[i] == still_open(s).last() && is_opener(s[i])
                && forall|k: int| i < k < s.len() ==> !is_opener(#[trigger] s[k]),
    decreases s.len(),
{
    if s.len() > 0 {
        let t = s.drop_last();
        let c = s[s.len() - 1];
        if is_opener(c) {
            assert(s[s.len() - 1] == still_open(s).last());
        } else {
            lemma_last_opened(t);
            let i = choose|i: int|
                0 <= i < t.len() && #[trigger] t[i] == still_open(t).last() && is_opener(t[i])
                    && forall|k: int| i < k < t.len() ==> !is_opener(#[trigger] t[k]);
            assert(s[i] == still_open(s).last());
            assert forall|k: int| i < k < s.len() implies !is_opener(#[trigger] s[k]) by {
                if k < t.len() {
                    assert(s[k] == t[k]);
                }
            }
        }
    }
}

/// Nothing but annotations goes: where between any bracket and one that would close it another is
/// opened, and never closed, the text is left as it is.
pub proof fn law_a_text_without_annotations_stays(s: Seq<char>)
    requires
        forall|i: int, j: int|
            0 <= i < j < s.len() && ((#[trigger] s[i] == '[' && #[trigger] s[j] == ']') || (s[i] == '('
                && s[j] == ')')) ==> exists|k: int| i < k < j && (#[trigger] s[k] == '[' || s[k] == '('),
    ensures
        stripped(s) == s,
{
    lemma_no_span(s);
    lemma_stripped_is_replayed(s);
    lemma_spanless(s);
}

proof fn lemma_no_span(s: Seq<char>)
    requires
        forall|i: int, j: int|
            0 <= i < j < s.len() && ((#[trigger] s[i] == '[' && #[trigger] s[j] == ']') || (s[i] == '('
                && s[j] == ')')) ==> exists|k: int| i < k < j && (#[trigger] s[k] == '[' || s[k] == '('),
    ensures
        spanless(s),
    decreases s.len(),
{
    if s.len() > 0 {
        let t = s.drop_last();
        let j = s.len() - 1;
        assert forall|i: int, j: int|
            0 <= i < j < t.len() && ((#[trigger] t[i] == '[' && #[trigger] t[j] == ']') || (t[i] == '('
                && t[j] == ')')) implies exists|k: int| i < k < j && (#[trigger] t[k] == '[' || t[k] == '(') by {
            assert(s[i] == t[i] && s[j] == t[j]);
            let k = choose|k: int| i < k < j && (#[trigger] s[k] == '[' || s[k] == '(');
            assert(t[k] == s[k]);
        }
        lemma_no_span(t);
        let open = still_open(t);
        if open.len() > 0 && closes(s.last(), open.last()) {
            lemma_last_opened(t);
            let i = choose|i: int|
                0 <= i < t.len() && #[trigger] t[i] == still_open(t).last() && is_opener(t[i])
                    && forall|k: int| i < k < t.len() ==> !is_opener(#[trigger] t[k]);
            assert(s[i] == t[i]);
            assert(s[j] == s.last());
            let k = choose|k: int| i < k < j && (#[trigger] s[k] == '[' || s[k] == '(');
            assert(t[k] == s[k]);
        }
    }
}

} // verus!
