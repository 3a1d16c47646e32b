//! Replacements: say a phrase, get the expansion.

use vstd::prelude::*;

use crate::chars;
use crate::chars::{chars_of, lowercase_of, string_of};
use crate::order;
use crate::order::{sort_descending, Keyed};
use crate::settings::Snippet;
use crate::sieve;
use crate::words;
use crate::words::{push_all, trim};

verus! {

/// Every character lowered, one after the other.
pub open spec fn lowered_each(s: Seq<char>) -> Seq<char>
    decreases s.len(),
{
    if s.len() == 0 {
        seq![]
    } else {
        chars::lowered_char(s[0]) + lowered_each(s.drop_first())
    }
}

/// Whether `text`, lowered from `at` on, begins with `want`.
pub open spec fn matches_at(text: Seq<char>, want: Seq<char>, at: int) -> bool {
    want.is_prefix_of(lowered_each(text.skip(at)))
}

/// Past the shortest run from `at` on, of at least one character, that lowers to `left`
/// characters or more.
pub open spec fn run_end(text: Seq<char>, at: int, left: int) -> int
    decreases text.len() - at,
{
    if at < 0 || at >= text.len() {
        text.len() as int
    } else if chars::lowered_char(text[at]).len() >= left {
        at + 1
    } else {
        run_end(text, at + 1, left - chars::lowered_char(text[at]).len())
    }
}

/// The first place at or after `from` where `text`, lowered, reads `want`, and its end.
pub open spec fn first_match(text: Seq<char>, want: Seq<char>, from: int) -> Option<(int, int)>
    decreases text.len() - from,
{
    if from < 0 || from >= text.len() {
        None
    } else if matches_at(text, want, from) {
        Some((from, run_end(text, from, want.len() as int)))
    } else {
        first_match(text, want, from + 1)
    }
}

/// Where `needle` stands in `text` at or after `from`, whatever the case of either.
pub open spec fn found(text: Seq<char>, needle: Seq<char>, from: int) -> Option<(int, int)> {
    if needle.len() == 0 {
        None
    } else {
        first_match(text, lowered_each(needle), from)
    }
}

/// Whether the neighbour of a place is no letter or digit: the character before it, or the
/// one at it.
pub open spec fn boundary(text: Seq<char>, at: int, before: bool) -> bool {
    if before {
        at <= 0 || !chars::is_word_char(text[at - 1])
    } else {
        at >= text.len() || !chars::is_word_char(text[at])
    }
}

/// The text with `with` in place of what stands from `at` to `end`.
pub open spec fn spliced(text: Seq<char>, at: int, end: int, with: Seq<char>) -> Seq<char> {
    text.take(at) + with + text.skip(end)
}

/// The text with every occurrence of `needle` from `cursor` on that stands on word boundaries
/// replaced. The search goes on behind each replacement, and one character on from an occurrence
/// that is part of a word, which a whole phrase may overlap.
pub open spec fn replaced(
    text: Seq<char>,
    needle: Seq<char>,
    with: Seq<char>,
    cursor: int,
) -> Seq<char>
    decreases text.len() - cursor,
{
    match found(text, needle, cursor) {
        None => text,
        Some((at, end)) => {
            proof {
                lemma_found_in_range(text, needle, cursor);
            }
            if boundary(text, at, true) && boundary(text, end, false) {
                replaced(spliced(text, at, end, with), needle, with, at + with.len())
            } else {
                replaced(text, needle, with, at + 1)
            }
        },
    }
}

/// The text after each replacement in turn.
pub open spec fn replaced_all(text: Seq<char>, snippets: Seq<Snippet>) -> Seq<char>
    decreases snippets.len(),
{
    if snippets.len() == 0 {
        text
    } else {
        let s = snippets[0];
        replaced_all(replaced(text, words::trimmed(s.trigger@), s.replacement@, 0), snippets.drop_first())
    }
}

/// The pairs as snippets.
pub open spec fn as_snippets(pairs: Seq<(String, String)>) -> Seq<Snippet> {
    Seq::new(pairs.len(), |i: int| Snippet { trigger: pairs[i].0, replacement: pairs[i].1 })
}

/// Holds of a snippet whose trigger is more than white space.
pub open spec fn has_trigger() -> spec_fn(Snippet) -> bool {
    |s: Snippet| words::trimmed(s.trigger@).len() > 0
}

/// The snippets that can be spoken, longest trigger first.
pub open spec fn in_order(pairs: Seq<(String, String)>) -> Seq<Snippet> {
    order::descending(as_snippets(pairs).filter(has_trigger()))
}

/// The text with every snippet expanded.
pub open spec fn expanded(text: Seq<char>, pairs: Seq<(String, String)>) -> Seq<char> {
    if text.len() == 0 {
        text
    } else {
        replaced_all(text, in_order(pairs))
    }
}

/// The length of a trigger is that of its UTF-8 encoding.
impl Keyed for Snippet {
    open spec fn key(&self) -> u64 {
        vstd::utf8::encode_utf8(self.trigger@).len() as u64
    }

    fn key_of(&self) -> (k: u64) {
        self.trigger.as_str().as_bytes().len() as u64
    }
}

/// A run ends in the text, and where it can it holds a character.
pub proof fn lemma_run_end(text: Seq<char>, at: int, left: int)
    requires
        0 <= at <= text.len(),
    ensures
        at <= run_end(text, at, left) <= text.len(),
        at < text.len() ==> at < run_end(text, at, left),
    decreases text.len() - at,
{
    if at < text.len() && chars::lowered_char(text[at]).len() < left {
        lemma_run_end(text, at + 1, left - chars::lowered_char(text[at]).len());
    }
}

/// What is found lies in the text at or after the place where the search began, is not empty,
/// and reads as the needle does.
pub proof fn lemma_found_in_range(text: Seq<char>, needle: Seq<char>, from: int)
    ensures
        found(text, needle, from) matches Some((at, end)) ==> 0 <= from <= at < end <= text.len()
            && matches_at(text, lowered_each(needle), at),
{
    lemma_first_match(text, lowered_each(needle), from);
}

proof fn lemma_first_match(text: Seq<char>, want: Seq<char>, from: int)
    ensures
        first_match(text, want, from) matches Some((at, end)) ==> 0 <= from <= at < end
            <= text.len() && matches_at(text, want, at) && end == run_end(
            text,
            at,
            want.len() as int,
        ),
        first_match(text, want, from) matches Some((at, end)) ==> forall|i: int|
            from <= i < at ==> !matches_at(text, want, i),
        first_match(text, want, from) is None && 0 <= from ==> forall|i: int|
            from <= i < text.len() ==> !matches_at(text, want, i),
    decreases text.len() - from,
{
    if from < 0 || from >= text.len() {
    } else if matches_at(text, want, from) {
        lemma_run_end(text, from, want.len() as int);
    } else {
        lemma_first_match(text, want, from + 1);
    }
}

/// Lowering two texts one after the other is lowering them joined.
pub proof fn lemma_lowered_each_concat(a: Seq<char>, b: Seq<char>)
    ensures
        lowered_each(a + b) == lowered_each(a) + lowered_each(b),
    decreases a.len(),
{
    if a.len() == 0 {
        assert(a + b =~= b);
        assert(lowered_each(a) + lowered_each(b) =~= lowered_each(b));
    } else {
        lemma_lowered_each_concat(a.drop_first(), b);
        assert((a + b).drop_first() =~= a.drop_first() + b);
        assert((a + b)[0] == a[0]);
        assert(lowered_each(a + b) =~= lowered_each(a) + lowered_each(b));
    }
}

/// Lowering one character.
pub proof fn lemma_lowered_one(c: char)
    ensures
        lowered_each(seq![c]) == chars::lowered_char(c),
{
    assert(seq![c].drop_first() =~= Seq::<char>::empty());
    assert(lowered_each(Seq::<char>::empty()) =~= Seq::<char>::empty());
    assert(lowered_each(seq![c]) =~= chars::lowered_char(c));
}

/// Every character of `s` lowered, one after the other.
pub fn lowercase_each(s: &[char]) -> (out: Vec<char>)
    ensures
        out@ == lowered_each(s@),
{
    let mut out: Vec<char> = Vec::new();
    let mut i: usize = 0;
    while i < s.len()
        invariant
            i <= s@.len(),
            out@ == lowered_each(s@.take(i as int)),
        decreases s@.len() - i,
    {
        let low: Vec<char> = lowercase_of(s[i]);
        proof {
            let one = seq![s@[i as int]];
            assert(s@.take(i + 1) =~= s@.take(i as int) + one);
            lemma_lowered_each_concat(s@.take(i as int), one);
            lemma_lowered_one(s@[i as int]);
        }
        push_all(&mut out, low.as_slice());
        i += 1;
    }
    assert(s@.take(i as int) =~= s@);
    out
}

/// Whether `text`, lowered from `at` on, begins with `want`; if so, where that run ends.
fn match_end(text: &[char], want: &[char], at: usize) -> (end: Option<usize>)
    requires
        at < text@.len(),
    ensures
        end is Some == matches_at(text@, want@, at as int),
        end matches Some(e) ==> e == run_end(text@, at as int, want@.len() as int),
{
    let mut low: Vec<char> = Vec::new();
    let mut i: usize = at;
    assert(text@.subrange(at as int, at as int) =~= Seq::<char>::empty());
    while i < text.len() && (i == at || low.len() < want.len())
        invariant
            at <= i <= text@.len(),
            at < text@.len(),
            low@ == lowered_each(text@.subrange(at as int, i as int)),
            run_end(text@, at as int, want@.len() as int) == (if i > at && low@.len()
                >= want@.len() {
                i as int
            } else {
                run_end(text@, i as int, want@.len() - low@.len())
            }),
        ensures
            at < i <= text@.len(),
            low@ == lowered_each(text@.subrange(at as int, i as int)),
            low@.len() >= want@.len() ==> run_end(text@, at as int, want@.len() as int) == i,
            low@.len() < want@.len() ==> i == text@.len(),
        decreases text@.len() - i,
    {
        let more: Vec<char> = lowercase_of(text[i]);
        proof {
            let one = seq![text@[i as int]];
            assert(text@.subrange(at as int, i + 1) =~= text@.subrange(at as int, i as int) + one);
            lemma_lowered_each_concat(text@.subrange(at as int, i as int), one);
            lemma_lowered_one(text@[i as int]);
        }
        push_all(&mut low, more.as_slice());
        i += 1;
    }
    proof {
        let whole = text@.skip(at as int);
        assert(whole =~= text@.subrange(at as int, i as int) + text@.skip(i as int));
        lemma_lowered_each_concat(text@.subrange(at as int, i as int), text@.skip(i as int));
        if i == text@.len() {
            assert(text@.skip(i as int) =~= Seq::<char>::empty());
        }
    }
    let ghost whole = lowered_each(text@.skip(at as int));
    if low.len() < want.len() {
        return None;
    }
    let mut k: usize = 0;
    while k < want.len()
        invariant
            k <= want@.len() <= low@.len() <= whole.len(),
            forall|j: int| 0 <= j < low@.len() ==> whole[j] == low@[j],
            forall|j: int| 0 <= j < k ==> want@[j] == whole[j],
            whole == lowered_each(text@.skip(at as int)),
        decreases want@.len() - k,
    {
        if low[k] != want[k] {
            assert(whole.subrange(0, want@.len() as int)[k as int] == whole[k as int]);
            return None;
        }
        k += 1;
    }
    assert(want@ =~= whole.subrange(0, want@.len() as int));
    Some(i)
}

/// Case-insensitive search, giving places in `haystack` itself.
///
/// The haystack is never lowered as a whole: lowering can change how many characters a text
/// has, and places in a lowered copy are not places in the text itself.
pub fn find_ignoring_case(haystack: &[char], needle: &[char], from: usize) -> (r: Option<
    (usize, usize),
>)
    ensures
        (match r {
            Some((at, end)) => Some((at as int, end as int)),
            None => None::<(int, int)>,
        }) == found(haystack@, needle@, from as int),
{
    if needle.len() == 0 || from > haystack.len() {
        return None;
    }
    let want: Vec<char> = lowercase_each(needle);
    let mut at: usize = from;
    while at < haystack.len()
        invariant
            from <= at <= haystack@.len(),
            needle@.len() > 0,
            want@ == lowered_each(needle@),
            first_match(haystack@, want@, from as int) == first_match(
                haystack@,
                want@,
                at as int,
            ),
        decreases haystack@.len() - at,
    {
        match match_end(haystack, want.as_slice(), at) {
            Some(end) => {
                return Some((at, end));
            },
            None => {},
        }
        at += 1;
    }
    None
}

/// Whether a place sits on a word boundary: the character before it, or the one at it, is no
/// letter or digit.
pub fn is_boundary(text: &[char], at: usize, before: bool) -> (r: bool)
    requires
        at <= text@.len(),
    ensures
        r == boundary(text@, at as int, before),
{
    if before {
        at == 0 || !text[at - 1].is_alphanumeric()
    } else {
        at >= text.len() || !text[at].is_alphanumeric()
    }
}

/// The text with `with` in place of what stands from `at` to `end`.
fn splice(text: &[char], at: usize, end: usize, with: &[char]) -> (out: Vec<char>)
    requires
        at <= end <= text@.len(),
    ensures
        out@ == spliced(text@, at as int, end as int, with@),
{
    let mut out: Vec<char> = Vec::new();
    let mut i: usize = 0;
    while i < at
        invariant
            i <= at <= text@.len(),
            out@ == text@.take(i as int),
        decreases at - i,
    {
        out.push(text[i]);
        i += 1;
    }
    push_all(&mut out, with);
    i = end;
    while i < text.len()
        invariant
            at <= end <= i <= text@.len(),
            out@ == text@.take(at as int) + with@ + text@.subrange(end as int, i as int),
        decreases text@.len() - i,
    {
        out.push(text[i]);
        i += 1;
    }
    assert(text@.subrange(end as int, i as int) =~= text@.skip(end as int));
    out
}

/// Replaces every whole-word occurrence of `needle`.
pub fn replace_all(text: Vec<char>, needle: &[char], with: &[char]) -> (out: Vec<char>)
    ensures
        out@ == replaced(text@, needle@, with@, 0),
{
    let mut out: Vec<char> = text;
    let mut cursor: usize = 0;
    loop
        invariant
            cursor <= out@.len(),
            replaced(out@, needle@, with@, cursor as int) == replaced(text@, needle@, with@, 0),
        ensures
            out@ == replaced(text@, needle@, with@, 0),
        decreases out@.len() - cursor,
    {
        proof {
            lemma_found_in_range(out@, needle@, cursor as int);
        }
        match find_ignoring_case(out.as_slice(), needle, cursor) {
            Some((at, end)) => {
                if is_boundary(out.as_slice(), at, true) && is_boundary(
                    out.as_slice(),
                    end,
                    false,
                ) {
                    // The search resumes behind the replacement, which may hold the trigger.
                    let next: Vec<char> = splice(out.as_slice(), at, end, with);
                    assert(next@.len() == at + with@.len() + (out@.len() - end));
                    cursor = next.len() - (out.len() - end);
                    out = next;
                } else {
                    // A whole phrase may begin inside this occurrence.
                    cursor = at + 1;
                }
            },
            None => {
                break;
            },
        }
    }
    out
}

/// Replaces spoken trigger phrases with their expansions.
///
/// Case-insensitive and whole-phrase only: a trigger must sit on word boundaries. Longer
/// triggers are applied first, so that a two-word trigger wins over a one-word one that is a
/// prefix of it.
pub fn expand_snippets(text: &str, snippets: &[(String, String)]) -> (out: String)
    ensures
        out@ == expanded(text@, snippets@),
{
    if text.is_empty() {
        return text.to_string();
    }
    let mut usable: Vec<Snippet> = Vec::new();
    let ghost all = as_snippets(snippets@);
    let mut i: usize = 0;
    assert(all.take(0).filter(has_trigger()) =~= usable@) by {
        reveal(Seq::filter);
    }
    while i < snippets.len()
        invariant
            i <= snippets@.len(),
            all == as_snippets(snippets@),
            usable@ == all.take(i as int).filter(has_trigger()),
        decreases snippets@.len() - i,
    {
        proof {
            reveal(Seq::filter);
            assert(all.take(i + 1).drop_last() =~= all.take(i as int));
        }
        let trigger: Vec<char> = chars_of(snippets[i].0.as_str());
        if trim(trigger.as_slice()).len() > 0 {
            usable.push(
                Snippet { trigger: snippets[i].0.clone(), replacement: snippets[i].1.clone() },
            );
        }
        i += 1;
    }
    assert(all.take(i as int) =~= all);
    let ordered: Vec<Snippet> = sort_descending(usable);
    let mut out: Vec<char> = chars_of(text);
    let mut k: usize = 0;
    assert(ordered@.skip(0) =~= ordered@);
    while k < ordered.len()
        invariant
            k <= ordered@.len(),
            replaced_all(out@, ordered@.skip(k as int)) == replaced_all(text@, ordered@),
        decreases ordered@.len() - k,
    {
        let ghost rest = ordered@.skip(k as int);
        assert(rest[0] == ordered@[k as int]);
        assert(rest.drop_first() =~= ordered@.skip(k + 1));
        let trigger: Vec<char> = chars_of(ordered[k].trigger.as_str());
        let needle: Vec<char> = trim(trigger.as_slice());
        let with: Vec<char> = chars_of(ordered[k].replacement.as_str());
        out = replace_all(out, needle.as_slice(), with.as_slice());
        k += 1;
    }
    string_of(out.as_slice())
}

/// Without snippets a text stays as it is.
pub proof fn law_no_snippets_no_change(text: Seq<char>)
    ensures
        expanded(text, seq![]) == text,
{
    reveal(Seq::filter);
    assert(as_snippets(seq![]) =~= seq![]);
}

/// Triggers of white space alone are skipped.
pub proof fn law_blank_triggers_are_skipped(text: Seq<char>, pairs: Seq<(String, String)>)
    requires
        forall|i: int| 0 <= i < pairs.len() ==> words::trimmed((#[trigger] pairs[i]).0@).len() == 0,
    ensures
        expanded(text, pairs) == text,
{
    let all = as_snippets(pairs);
    assert forall|i: int| 0 <= i < all.len() implies !has_trigger()(#[trigger] all[i]) by {
        assert(all[i].trigger == pairs[i].0);
    }
    sieve::lemma_filter_drops_all(all, has_trigger());
}

/// A blank trigger changes nothing, whatever other snippets stand around it.
pub proof fn law_a_blank_trigger_changes_nothing(
    text: Seq<char>,
    pairs: Seq<(String, String)>,
    i: int,
    blank: (String, String),
)
    requires
        0 <= i <= pairs.len(),
        words::trimmed(blank.0@).len() == 0,
    ensures
        expanded(text, pairs.insert(i, blank)) == expanded(text, pairs),
{
    let all = as_snippets(pairs);
    let more = as_snippets(pairs.insert(i, blank));
    let one = seq![Snippet { trigger: blank.0, replacement: blank.1 }];
    let front = all.take(i);
    let back = all.skip(i);
    assert(all =~= front + back);
    assert(more =~= front + one + back);
    assert(!has_trigger()(one[0]));
    sieve::lemma_filter_drops_all(one, has_trigger());
    Seq::filter_distributes_over_add(front, back, has_trigger());
    Seq::filter_distributes_over_add(front + one, back, has_trigger());
    Seq::filter_distributes_over_add(front, one, has_trigger());
    assert(more.filter(has_trigger()) =~= all.filter(has_trigger()));
}

/// The snippets that can be spoken, in the order of the pairs.
spec fn spoken(pairs: Seq<(String, String)>) -> Seq<Snippet> {
    as_snippets(pairs).filter(has_trigger())
}

proof fn lemma_spoken_add(a: Seq<(String, String)>, b: Seq<(String, String)>)
    ensures
        spoken(a + b) == spoken(a) + spoken(b),
{
    assert(as_snippets(a + b) =~= as_snippets(a) + as_snippets(b));
    Seq::filter_distributes_over_add(as_snippets(a), as_snippets(b), has_trigger());
}

/// The same pairs in any order give the same snippets.
proof fn lemma_spoken_alike(a: Seq<(String, String)>, b: Seq<(String, String)>)
    requires
        a.to_multiset() == b.to_multiset(),
    ensures
        spoken(a).to_multiset() == spoken(b).to_multiset(),
    decreases a.len(),
{
    broadcast use vstd::seq_lib::group_to_multiset_ensures;

    assert(a.len() == a.to_multiset().len() && b.len() == b.to_multiset().len());
    if a.len() == 0 {
        assert(a =~= b);
    } else {
        assert(a.contains(a[0]));
        assert(b.to_multiset().count(a[0]) > 0);
        let k = choose|k: int| 0 <= k < b.len() && b[k] == a[0];
        let one = seq![a[0]];
        let front = b.take(k);
        let back = b.skip(k + 1);
        assert(a.remove(0).to_multiset() =~= b.remove(k).to_multiset());
        lemma_spoken_alike(a.remove(0), b.remove(k));
        assert(a =~= one + a.remove(0));
        assert(b =~= front + one + back);
        assert(b.remove(k) =~= front + back);
        lemma_spoken_add(one, a.remove(0));
        lemma_spoken_add(front + one, back);
        lemma_spoken_add(front, one);
        lemma_spoken_add(front, back);
        let x = spoken(front);
        let y = spoken(one);
        let z = spoken(back);
        vstd::seq_lib::lemma_multiset_commutative(y, spoken(a.remove(0)));
        vstd::seq_lib::lemma_multiset_commutative(x + y, z);
        vstd::seq_lib::lemma_multiset_commutative(x, y);
        vstd::seq_lib::lemma_multiset_commutative(x, z);
        assert(spoken(a).to_multiset() =~= spoken(b).to_multiset());
    }
}

/// The order in which the snippets are listed does not matter, as long as no two different ones
/// that can be spoken have triggers of the same length.
pub proof fn law_the_order_of_snippets_does_not_matter(
    text: Seq<char>,
    a: Seq<(String, String)>,
    b: Seq<(String, String)>,
)
    requires
        a.to_multiset() == b.to_multiset(),
        forall|i: int|
            0 <= i < a.len() ==> vstd::utf8::encode_utf8((#[trigger] a[i]).0@).len() <= u64::MAX,
        forall|i: int, j: int|
            0 <= i < j < a.len() && words::trimmed((#[trigger] a[i]).0@).len() > 0 && words::trimmed(
                (#[trigger] a[j]).0@,
            ).len() > 0 && vstd::utf8::encode_utf8(a[i].0@).len() == vstd::utf8::encode_utf8(
                a[j].0@,
            ).len() ==> a[i] == a[j],
    ensures
        expanded(text, a) == expanded(text, b),
{
    let x = spoken(a);
    lemma_spoken_alike(a, b);
    sieve::lemma_filter_is_from(as_snippets(a), has_trigger());
    assert forall|i: int, j: int|
        0 <= i < x.len() && 0 <= j < x.len() && (#[trigger] x[i]).key() == (
        #[trigger] x[j]).key() implies x[i] == x[j] by {
        let all = as_snippets(a);
        let k = choose|k: int| 0 <= k < all.len() && all[k] == all.filter(has_trigger())[i];
        let m = choose|m: int| 0 <= m < all.len() && all[m] == all.filter(has_trigger())[j];
        assert(has_trigger()(all[k]) && has_trigger()(all[m]));
        assert(all[k].trigger == a[k].0 && all[m].trigger == a[m].0);
        assert(a[k] == a[m]);
    }
    order::law_distinct_keys_sort_alike(x, spoken(b));
}

/// What is found is the first place that reads as the needle does, case aside: no place
/// before it does, and where nothing is found none does at all.
pub proof fn law_the_first_match_is_found(text: Seq<char>, needle: Seq<char>, from: int)
    requires
        0 <= from,
        needle.len() > 0,
    ensures
        ({
            let want = lowered_each(needle);
            match found(text, needle, from) {
                Some((at, end)) => {
                    &&& from <= at < end <= text.len()
                    &&& matches_at(text, want, at)
                    &&& forall|i: int| from <= i < at ==> !matches_at(text, want, i)
                },
                None => forall|i: int| from <= i < text.len() ==> !matches_at(text, want, i),
            }
        }),
{
    lemma_first_match(text, lowered_each(needle), from);
}

/// A trigger fires on word boundaries only: where no occurrence sits on them, nothing changes.
pub proof fn law_parts_of_words_stay(
    text: Seq<char>,
    needle: Seq<char>,
    with: Seq<char>,
    cursor: int,
)
    requires
        0 <= cursor,
        forall|at: int|
            0 <= at < text.len() && matches_at(text, lowered_each(needle), at) ==> !(#[trigger]
            boundary(text, at, true) && boundary(
                text,
                run_end(text, at, lowered_each(needle).len() as int),
                false,
            )),
    ensures
        replaced(text, needle, with, cursor) == text,
    decreases text.len() - cursor,
{
    lemma_first_match(text, lowered_each(needle), cursor);
    match found(text, needle, cursor) {
        None => {},
        Some((at, end)) => {
            assert(!(boundary(text, at, true) && boundary(text, end, false)));
            law_parts_of_words_stay(text, needle, with, at + 1);
        },
    }
}

/// Whether `needle` stands at a place as a whole phrase: case aside, and on word boundaries.
pub open spec fn whole_at(text: Seq<char>, needle: Seq<char>, at: int) -> bool {
    &&& needle.len() > 0
    &&& 0 <= at < text.len()
    &&& matches_at(text, lowered_each(needle), at)
    &&& boundary(text, at, true)
    &&& boundary(text, run_end(text, at, lowered_each(needle).len() as int), false)
}

/// A place without a whole phrase is passed over.
proof fn lemma_passed_over(text: Seq<char>, needle: Seq<char>, with: Seq<char>, at: int)
    requires
        0 <= at < text.len(),
        !whole_at(text, needle, at),
    ensures
        replaced(text, needle, with, at) == replaced(text, needle, with, at + 1),
{
    if needle.len() > 0 && !matches_at(text, lowered_each(needle), at) {
        assert(found(text, needle, at) == found(text, needle, at + 1));
    }
}

/// The first whole phrase from the cursor on is replaced, whatever occurrences inside words
/// stand before it or overlap it, and the search goes on behind the replacement.
pub proof fn law_the_first_whole_phrase_is_replaced(
    text: Seq<char>,
    needle: Seq<char>,
    with: Seq<char>,
    cursor: int,
    at: int,
)
    requires
        0 <= cursor <= at,
        whole_at(text, needle, at),
        forall|i: int| cursor <= i < at ==> !#[trigger] whole_at(text, needle, i),
    ensures
        ({
            let end = run_end(text, at, lowered_each(needle).len() as int);
            replaced(text, needle, with, cursor) == replaced(
                spliced(text, at, end, with),
                needle,
                with,
                at + with.len(),
            )
        }),
    decreases at - cursor,
{
    if cursor < at {
        assert(!whole_at(text, needle, cursor));
        lemma_passed_over(text, needle, with, cursor);
        law_the_first_whole_phrase_is_replaced(text, needle, with, cursor + 1, at);
    }
}

/// Reading `rest` from left to right behind what is written already: where it begins with a whole
/// phrase, the replacement is written and the phrase is read past, and otherwise one character
/// is copied. The neighbour on the left is what was written last.
pub open spec fn read_through(
    written: Seq<char>,
    rest: Seq<char>,
    needle: Seq<char>,
    with: Seq<char>,
) -> Seq<char>
    decreases rest.len(),
{
    if rest.len() == 0 {
        written
    } else if whole_at(written + rest, needle, written.len() as int) {
        let want = lowered_each(needle);
        proof {
            lemma_run_end(rest, 0, want.len() as int);
        }
        read_through(
            written + with,
            rest.skip(run_end(rest, 0, want.len() as int)),
            needle,
            with,
        )
    } else {
        read_through(written.push(rest[0]), rest.drop_first(), needle, with)
    }
}

/// Where a run ends does not depend on the text before it.
proof fn lemma_run_end_shift(front: Seq<char>, rest: Seq<char>, at: int, left: int)
    requires
        0 <= at <= rest.len(),
    ensures
        run_end(front + rest, front.len() + at, left) == front.len() + run_end(rest, at, left),
    decreases rest.len() - at,
{
    if at < rest.len() {
        assert((front + rest)[front.len() + at] == rest[at]);
        if chars::lowered_char(rest[at]).len() < left {
            lemma_run_end_shift(front, rest, at + 1, left - chars::lowered_char(rest[at]).len());
        }
    }
}

proof fn lemma_read_through(
    written: Seq<char>,
    rest: Seq<char>,
    needle: Seq<char>,
    with: Seq<char>,
)
    ensures
        replaced(written + rest, needle, with, written.len() as int) == read_through(
            written,
            rest,
            needle,
            with,
        ),
    decreases rest.len(),
{
    let text = written + rest;
    let at = written.len() as int;
    if rest.len() == 0 {
        assert(text =~= written);
    } else if whole_at(text, needle, at) {
        let left = lowered_each(needle).len() as int;
        lemma_run_end(rest, 0, left);
        lemma_run_end_shift(written, rest, 0, left);
        let n = run_end(rest, 0, left);
        law_the_first_whole_phrase_is_replaced(text, needle, with, at, at);
        assert(spliced(text, at, at + n, with) =~= (written + with) + rest.skip(n));
        lemma_read_through(written + with, rest.skip(n), needle, with);
    } else {
        lemma_passed_over(text, needle, with, at);
        assert(text =~= written.push(rest[0]) + rest.drop_first());
        lemma_read_through(written.push(rest[0]), rest.drop_first(), needle, with);
    }
}

/// Every whole phrase outside a replacement is replaced: the text is read from left to right, no
/// place is left out but those inside a phrase that was just replaced, and wherever a whole
/// phrase stands its replacement is written. Nothing else changes.
pub proof fn law_every_whole_phrase_is_replaced(text: Seq<char>, needle: Seq<char>, with: Seq<char>)
    ensures
        replaced(text, needle, with, 0) == read_through(seq![], text, needle, with),
{
    assert(Seq::<char>::empty() + text =~= text);
    lemma_read_through(seq![], text, needle, with);
}

/// What stands before the cursor is settled: a replacement is never searched again, so one
/// that holds its own trigger does no harm.
pub proof fn law_text_before_the_cursor_is_settled(
    text: Seq<char>,
    needle: Seq<char>,
    with: Seq<char>,
    cursor: int,
)
    requires
        0 <= cursor <= text.len(),
    ensures
        cursor <= replaced(text, needle, with, cursor).len(),
        replaced(text, needle, with, cursor).take(cursor) == text.take(cursor),
    decreases text.len() - cursor,
{
    lemma_found_in_range(text, needle, cursor);
    match found(text, needle, cursor) {
        None => {},
        Some((at, end)) => {
            if boundary(text, at, true) && boundary(text, end, false) {
                let next = spliced(text, at, end, with);
                law_text_before_the_cursor_is_settled(next, needle, with, at + with.len());
                let out = replaced(text, needle, with, cursor);
                assert(out.take(cursor) =~= out.take(at + with.len()).take(cursor));
                assert(next.take(at + with.len()).take(cursor) =~= text.take(cursor));
            } else {
                law_text_before_the_cursor_is_settled(text, needle, with, at + 1);
                let out = replaced(text, needle, with, cursor);
                assert(out.take(cursor) =~= out.take(at + 1).take(cursor));
                assert(text.take(at + 1).take(cursor) =~= text.take(cursor));
            }
        },
    }
}

/// A text that is a trigger, whatever its case, becomes the replacement.
pub proof fn law_a_spoken_trigger_expands(text: Seq<char>, needle: Seq<char>, with: Seq<char>)
    requires
        needle.len() > 0,
        text.len() > 0,
        lowered_each(text) == lowered_each(needle),
        forall|i: int| 0 <= i < text.len() ==> chars::lowered_char(#[trigger] text[i]).len() > 0,
    ensures
        replaced(text, needle, with, 0) == with,
{
    let want = lowered_each(needle);
    assert(text.skip(0) =~= text);
    assert(want =~= want.subrange(0, want.len() as int));
    lemma_run_of_all(text, 0, want.len() as int);
    assert(found(text, needle, 0) == Some((0int, text.len() as int)));
    let next = spliced(text, 0, text.len() as int, with);
    assert(next =~= with);
    assert(found(with, needle, with.len() as int) is None);
    assert(replaced(with, needle, with, with.len() as int) == with);
    assert(replaced(text, needle, with, 0) == replaced(
        next,
        needle,
        with,
        with.len() as int,
    ));
}

/// A run that must lower to as much as the rest of the text does is the rest of the text.
proof fn lemma_run_of_all(text: Seq<char>, at: int, left: int)
    requires
        0 <= at < text.len(),
        left == lowered_each(text.skip(at)).len(),
        forall|i: int| 0 <= i < text.len() ==> chars::lowered_char(#[trigger] text[i]).len() > 0,
    ensures
        run_end(text, at, left) == text.len(),
    decreases text.len() - at,
{
    let rest = text.skip(at);
    assert(rest[0] == text[at]);
    assert(rest.drop_first() =~= text.skip(at + 1));
    let tail = lowered_each(text.skip(at + 1));
    assert(left == chars::lowered_char(text[at]).len() + tail.len());
    if at + 1 < text.len() {
        let more = text.skip(at + 1);
        assert(more[0] == text[at + 1]);
        assert(chars::lowered_char(text[at + 1]).len() > 0);
        assert(tail.len() >= chars::lowered_char(more[0]).len());
        lemma_run_of_all(text, at + 1, tail.len() as int);
    } else {
        assert(text.skip(at + 1) =~= Seq::<char>::empty());
        assert(tail.len() == 0);
    }
}

/// A longer text has a longer encoding.
proof fn lemma_longer_encoding(a: Seq<char>, b: Seq<char>)
    requires
        a.is_prefix_of(b),
        a.len() < b.len(),
    ensures
        vstd::utf8::encode_utf8(a).len() < vstd::utf8::encode_utf8(b).len(),
    decreases a.len(),
{
    assert(vstd::utf8::encode_scalar(b[0] as u32).len() > 0);
    if a.len() > 0 {
        assert(a[0] == b.subrange(0, a.len() as int)[0]);
        assert(a.drop_first() =~= b.drop_first().subrange(0, a.len() - 1));
        lemma_longer_encoding(a.drop_first(), b.drop_first());
    }
}

/// Longer triggers come first: one that another begins with comes before that other.
pub proof fn law_longer_triggers_come_first(pairs: Seq<(String, String)>, i: int, j: int)
    requires
        0 <= i < in_order(pairs).len(),
        0 <= j < in_order(pairs).len(),
        in_order(pairs)[j].trigger@.is_prefix_of(in_order(pairs)[i].trigger@),
        in_order(pairs)[j].trigger@.len() < in_order(pairs)[i].trigger@.len(),
        vstd::utf8::encode_utf8(in_order(pairs)[i].trigger@).len() <= u64::MAX,
    ensures
        i < j,
{
    let list = in_order(pairs);
    order::law_descending_is_sorted(as_snippets(pairs).filter(has_trigger()));
    lemma_longer_encoding(list[j].trigger@, list[i].trigger@);
    assert(list[i].key() > list[j].key());
    if j < i {
        assert(list[j].key() >= list[i].key());
    }
}

/// Nothing changes where no whole phrase stands.
proof fn lemma_no_whole_phrase(text: Seq<char>, needle: Seq<char>, with: Seq<char>, cursor: int)
    requires
        0 <= cursor,
        forall|at: int| cursor <= at < text.len() ==> !#[trigger] whole_at(text, needle, at),
    ensures
        replaced(text, needle, with, cursor) == text,
    decreases text.len() - cursor,
{
    if cursor < text.len() {
        assert(!whole_at(text, needle, cursor));
        lemma_passed_over(text, needle, with, cursor);
        lemma_no_whole_phrase(text, needle, with, cursor + 1);
    }
}

/// One snippet alone is one round of replacing.
proof fn lemma_expanded_by_one(text: Seq<char>, pair: (String, String))
    requires
        words::trimmed(pair.0@).len() > 0,
    ensures
        expanded(text, seq![pair]) == replaced(text, words::trimmed(pair.0@), pair.1@, 0),
{
    let one = Snippet { trigger: pair.0, replacement: pair.1 };
    let none = Seq::<Snippet>::empty();
    let list = seq![one];
    assert(as_snippets(seq![pair]) =~= list);
    sieve::lemma_filter_one(one, has_trigger());
    assert(has_trigger()(one));
    assert(list.drop_first() =~= none);
    assert(order::descending(none) == none);
    assert(order::placed(one, none) =~= list);
    assert(order::descending(list) == list);
    assert(in_order(seq![pair]) == list);
    let next = replaced(text, words::trimmed(pair.0@), pair.1@, 0);
    assert(replaced_all(next, none) == next);
    assert(replaced_all(text, list) == next);
}

/// Every snippet is applied, however many there are: the one with the longest trigger to the text,
/// and all the others to what comes of that, wherever in the list it stands. Of two with triggers
/// of the same length the earlier goes first.
pub proof fn law_every_snippet_is_applied(
    text: Seq<char>,
    a: Seq<(String, String)>,
    pair: (String, String),
    b: Seq<(String, String)>,
)
    requires
        words::trimmed(pair.0@).len() > 0,
        vstd::utf8::encode_utf8(pair.0@).len() <= u64::MAX,
        forall|i: int|
            0 <= i < a.len() ==> vstd::utf8::encode_utf8((#[trigger] a[i]).0@).len()
                < vstd::utf8::encode_utf8(pair.0@).len(),
        forall|i: int|
            0 <= i < b.len() ==> vstd::utf8::encode_utf8((#[trigger] b[i]).0@).len()
                <= vstd::utf8::encode_utf8(pair.0@).len(),
    ensures
        expanded(text, a + seq![pair] + b) == expanded(expanded(text, seq![pair]), a + b),
{
    let one = Snippet { trigger: pair.0, replacement: pair.1 };
    let x = spoken(a);
    let y = spoken(b);
    lemma_spoken_add(a + seq![pair], b);
    lemma_spoken_add(a, seq![pair]);
    lemma_spoken_add(a, b);
    assert(as_snippets(seq![pair]) =~= seq![one]);
    sieve::lemma_filter_one(one, has_trigger());
    sieve::lemma_filter_is_from(as_snippets(a), has_trigger());
    sieve::lemma_filter_is_from(as_snippets(b), has_trigger());
    assert forall|i: int| 0 <= i < x.len() implies (#[trigger] x[i]).key() < one.key() by {
        let all = as_snippets(a);
        let k = choose|k: int| 0 <= k < all.len() && all[k] == all.filter(has_trigger())[i];
        assert(all[k].trigger == a[k].0);
    }
    assert forall|i: int| 0 <= i < y.len() implies (#[trigger] y[i]).key() <= one.key() by {
        let all = as_snippets(b);
        let k = choose|k: int| 0 <= k < all.len() && all[k] == all.filter(has_trigger())[i];
        assert(all[k].trigger == b[k].0);
    }
    order::law_the_largest_leads_the_rest(x, one, y);
    let list = order::descending(x + y);
    assert(in_order(a + seq![pair] + b) == seq![one] + list);
    assert(in_order(a + b) == list);
    assert((seq![one] + list).drop_first() =~= list);
    let next = replaced(text, words::trimmed(pair.0@), pair.1@, 0);
    lemma_expanded_by_one(text, pair);
    assert(replaced_all(text, seq![one] + list) == replaced_all(next, list));
    if text.len() == 0 {
        lemma_nothing_stays_nothing(text, list);
    }
    if next.len() == 0 {
        lemma_nothing_stays_nothing(next, list);
    }
}

proof fn lemma_nothing_stays_nothing(text: Seq<char>, list: Seq<Snippet>)
    requires
        text.len() == 0,
    ensures
        replaced_all(text, list) == text,
    decreases list.len(),
{
    if list.len() > 0 {
        lemma_nothing_stays_nothing(text, list.drop_first());
    }
}

/// A single snippet with a trigger replaces the trigger, without its outer white space, by its
/// replacement, as whole phrases go; without any phrase the text stays.
pub proof fn law_one_snippet_replaces_its_trigger(text: Seq<char>, pair: (String, String))
    requires
        words::trimmed(pair.0@).len() > 0,
    ensures
        expanded(text, seq![pair]) == read_through(
            seq![],
            text,
            words::trimmed(pair.0@),
            pair.1@,
        ),
{
    lemma_expanded_by_one(text, pair);
    let nothing = Seq::<char>::empty();
    lemma_read_through(nothing, text, words::trimmed(pair.0@), pair.1@);
    assert(nothing + text =~= text);
}

/// A list in which one snippet makes one text of another, and no other changes either.
proof fn lemma_one_changes(text: Seq<char>, list: Seq<Snippet>, one: Snippet, out: Seq<char>)
    requires
        forall|k: int|
            0 <= k < list.len() ==> replaced(
                out,
                words::trimmed((#[trigger] list[k]).trigger@),
                list[k].replacement@,
                0,
            ) == out,
        forall|k: int|
            0 <= k < list.len() && #[trigger] list[k] != one ==> replaced(
                text,
                words::trimmed(list[k].trigger@),
                list[k].replacement@,
                0,
            ) == text,
        replaced(text, words::trimmed(one.trigger@), one.replacement@, 0) == out,
    ensures
        replaced_all(out, list) == out,
        replaced_all(text, list) == (if list.contains(one) {
            out
        } else {
            text
        }),
    decreases list.len(),
{
    if list.len() > 0 {
        let rest = list.drop_first();
        assert(list[0] == list.first());
        assert forall|k: int| 0 <= k < rest.len() implies replaced(
            out,
            words::trimmed((#[trigger] rest[k]).trigger@),
            rest[k].replacement@,
            0,
        ) == out by {
            assert(rest[k] == list[k + 1]);
        }
        assert forall|k: int| 0 <= k < rest.len() && #[trigger] rest[k] != one implies replaced(
            text,
            words::trimmed(rest[k].trigger@),
            rest[k].replacement@,
            0,
        ) == text by {
            assert(rest[k] == list[k + 1]);
        }
        lemma_one_changes(text, rest, one, out);
        if rest.contains(one) {
            let k = choose|k: int| 0 <= k < rest.len() && rest[k] == one;
            assert(list[k + 1] == one);
        } else if list.contains(one) {
            let k = choose|k: int| 0 <= k < list.len() && list[k] == one;
            if k > 0 {
                assert(rest[k - 1] == one);
            }
        }
    }
}

/// The one snippet that was spoken is expanded, wherever in the list it stands and however long the
/// list is: where its trigger is the only one with a whole phrase in the text, at one place, and no
/// trigger has one in what comes of it, the text comes out with that phrase replaced.
pub proof fn law_the_one_spoken_snippet_is_expanded(
    text: Seq<char>,
    pairs: Seq<(String, String)>,
    i: int,
    at: int,
    end: int,
)
    requires
        0 <= i < pairs.len(),
        whole_at(text, words::trimmed(pairs[i].0@), at),
        end == run_end(text, at, lowered_each(words::trimmed(pairs[i].0@)).len() as int),
        forall|k: int|
            0 <= k < text.len() && k != at ==> !#[trigger] whole_at(
                text,
                words::trimmed(pairs[i].0@),
                k,
            ),
        forall|j: int, k: int|
            0 <= j < pairs.len() && pairs[j] != pairs[i] ==> !#[trigger] whole_at(
                text,
                words::trimmed(pairs[j].0@),
                k,
            ),
        forall|j: int, k: int|
            0 <= j < pairs.len() ==> !#[trigger] whole_at(
                text.take(at) + pairs[i].1@ + text.skip(end),
                words::trimmed(pairs[j].0@),
                k,
            ),
    ensures
        expanded(text, pairs) == text.take(at) + pairs[i].1@ + text.skip(end),
{
    broadcast use vstd::seq_lib::group_to_multiset_ensures;

    let all = as_snippets(pairs);
    let one = all[i];
    let needle = words::trimmed(pairs[i].0@);
    let with = pairs[i].1@;
    let out = text.take(at) + with + text.skip(end);
    let window = all.filter(has_trigger());
    let list = in_order(pairs);
    assert(has_trigger()(one));
    order::law_descending_is_sorted(window);
    sieve::lemma_filter_counts(all, has_trigger(), one);
    assert(all.contains(one));
    assert(all.to_multiset().count(one) > 0);
    assert(list.to_multiset().count(one) > 0);
    assert(list.contains(one));
    law_the_first_whole_phrase_is_replaced(text, needle, with, 0, at);
    assert(spliced(text, at, end, with) == out);
    lemma_no_whole_phrase(out, needle, with, at + with.len());
    sieve::lemma_filter_is_from(all, has_trigger());
    assert forall|k: int| 0 <= k < list.len() implies exists|j: int|
        0 <= j < all.len() && all[j] == #[trigger] list[k] by {
        assert(list.contains(list[k]));
        assert(window.to_multiset().count(list[k]) > 0);
        let m = choose|m: int| 0 <= m < window.len() && window[m] == list[k];
        let j = choose|j: int| 0 <= j < all.len() && all[j] == all.filter(has_trigger())[m];
        assert(all[j] == list[k]);
    }
    assert forall|k: int| 0 <= k < list.len() implies replaced(
        out,
        words::trimmed((#[trigger] list[k]).trigger@),
        list[k].replacement@,
        0,
    ) == out by {
        let j = choose|j: int| 0 <= j < all.len() && all[j] == list[k];
        assert(list[k].trigger == pairs[j].0);
        lemma_no_whole_phrase(out, words::trimmed(pairs[j].0@), list[k].replacement@, 0);
    }
    assert forall|k: int| 0 <= k < list.len() && #[trigger] list[k] != one implies replaced(
        text,
        words::trimmed(list[k].trigger@),
        list[k].replacement@,
        0,
    ) == text by {
        let j = choose|j: int| 0 <= j < all.len() && all[j] == list[k];
        assert(list[k].trigger == pairs[j].0);
        assert(pairs[j] != pairs[i]);
        lemma_no_whole_phrase(text, words::trimmed(pairs[j].0@), list[k].replacement@, 0);
    }
    lemma_one_changes(text, list, one, out);
}

/// Where an ASCII text has a phrase as a whole: it reads as the phrase does but for the case of its
/// letters, and has no letter and no digit on either side.
pub proof fn law_a_whole_phrase_in_characters(text: Seq<char>, needle: Seq<char>, at: int)
    requires
        chars::is_ascii_text(text),
        chars::is_ascii_text(needle),
        needle.len() > 0,
        0 <= at,
    ensures
        whole_at(text, needle, at) <==> {
            &&& at + needle.len() <= text.len()
            &&& forall|k: int|
                0 <= k < needle.len() ==> chars::ascii_lowered(text[at + k])
                    == chars::ascii_lowered(#[trigger] needle[k])
            &&& at == 0 || !('a' <= text[at - 1] <= 'z' || 'A' <= text[at - 1] <= 'Z' || '0'
                <= text[at - 1] <= '9')
            &&& at + needle.len() == text.len() || !('a' <= text[at + needle.len()] <= 'z' || 'A'
                <= text[at + needle.len()] <= 'Z' || '0' <= text[at + needle.len()] <= '9')
        },
        whole_at(text, needle, at) ==> run_end(text, at, lowered_each(needle).len() as int) == at
            + needle.len(),
{
    lemma_ascii_lowered_each(needle);
    if at < text.len() {
        let rest = text.skip(at);
        assert forall|i: int| 0 <= i < rest.len() implies chars::is_ascii_char(#[trigger] rest[i]) by {
            assert(rest[i] == text[at + i]);
        }
        lemma_ascii_lowered_each(rest);
        let low = lowered_each(rest);
        let want = lowered_each(needle);
        if at + needle.len() <= text.len() {
            lemma_ascii_run_end(text, at, needle.len() as int);
            if forall|k: int|
                0 <= k < needle.len() ==> chars::ascii_lowered(text[at + k])
                    == chars::ascii_lowered(#[trigger] needle[k]) {
                assert forall|k: int| 0 <= k < want.len() implies want[k] == low[k] by {
                    assert(needle[k] == needle[k]);
                }
                assert(want =~= low.subrange(0, want.len() as int));
            }
            if matches_at(text, want, at) {
                assert forall|k: int| 0 <= k < needle.len() implies chars::ascii_lowered(text[at + k])
                    == chars::ascii_lowered(#[trigger] needle[k]) by {
                    assert(want[k] == low.subrange(0, want.len() as int)[k]);
                }
            }
            if at > 0 {
                assert(chars::is_ascii_char(text[at - 1]));
            }
            if at + needle.len() < text.len() {
                assert(chars::is_ascii_char(text[at + needle.len()]));
            }
        }
    }
}

proof fn lemma_ascii_lowered_each(s: Seq<char>)
    requires
        chars::is_ascii_text(s),
    ensures
        lowered_each(s).len() == s.len(),
        forall|k: int| 0 <= k < s.len() ==> #[trigger] lowered_each(s)[k] == chars::ascii_lowered(s[k]),
    decreases s.len(),
{
    if s.len() > 0 {
        let t = s.drop_first();
        assert forall|i: int| 0 <= i < t.len() implies chars::is_ascii_char(#[trigger] t[i]) by {
            assert(t[i] == s[i + 1]);
        }
        lemma_ascii_lowered_each(t);
        assert(chars::is_ascii_char(s[0]));
        assert forall|k: int| 0 <= k < s.len() implies #[trigger] lowered_each(s)[k]
            == chars::ascii_lowered(s[k]) by {
            if k > 0 {
                assert(lowered_each(s)[k] == lowered_each(t)[k - 1]);
                assert(t[k - 1] == s[k]);
            }
        }
    }
}

proof fn lemma_ascii_run_end(text: Seq<char>, at: int, left: int)
    requires
        chars::is_ascii_text(text),
        0 <= at,
        0 < left,
        at + left <= text.len(),
    ensures
        run_end(text, at, left) == at + left,
    decreases left,
{
    assert(chars::is_ascii_char(text[at]));
    if left > 1 {
        lemma_ascii_run_end(text, at + 1, left - 1);
    }
}

/// A phrase is found whatever its case, in any script: where a stretch of the text lowers to what
/// the phrase lowers to, the phrase stands there, and ends where the stretch does.
pub proof fn law_a_phrase_reads_the_same_in_any_case(
    front: Seq<char>,
    stretch: Seq<char>,
    back: Seq<char>,
    needle: Seq<char>,
)
    requires
        stretch.len() > 0,
        lowered_each(stretch) == lowered_each(needle),
        forall|i: int| 0 <= i < stretch.len() ==> chars::lowered_char(#[trigger] stretch[i]).len() > 0,
    ensures
        matches_at(front + stretch + back, lowered_each(needle), front.len() as int),
        run_end(front + stretch + back, front.len() as int, lowered_each(needle).len() as int)
            == front.len() + stretch.len(),
{
    let text = front + stretch + back;
    let want = lowered_each(needle);
    assert(text.skip(front.len() as int) =~= stretch + back);
    lemma_lowered_each_concat(stretch, back);
    assert(want =~= lowered_each(stretch + back).subrange(0, want.len() as int));
    lemma_run_of_stretch(text, front.len() as int, stretch);
}

proof fn lemma_run_of_stretch(text: Seq<char>, at: int, stretch: Seq<char>)
    requires
        0 <= at,
        stretch.len() > 0,
        at + stretch.len() <= text.len(),
        forall|i: int|
            0 <= i < stretch.len() ==> text[at + i] == #[trigger] stretch[i] && chars::lowered_char(
                stretch[i],
            ).len() > 0,
    ensures
        run_end(text, at, lowered_each(stretch).len() as int) == at + stretch.len(),
    decreases stretch.len(),
{
    let rest = stretch.drop_first();
    let c = stretch[0];
    assert(text[at + 0] == stretch[0]);
    assert(text[at] == c);
    assert(lowered_each(stretch) == chars::lowered_char(c) + lowered_each(rest));
    if rest.len() == 0 {
        assert(lowered_each(rest).len() == 0);
    } else {
        assert forall|i: int| 0 <= i < rest.len() implies text[at + 1 + i] == #[trigger] rest[i]
            && chars::lowered_char(rest[i]).len() > 0 by {
            assert(rest[i] == stretch[i + 1]);
            assert(text[at + (i + 1)] == stretch[i + 1]);
        }
        lemma_run_of_stretch(text, at + 1, rest);
        assert(rest[0] == stretch[1]);
        assert(lowered_each(rest).len() > 0);
    }
}

/// Where a phrase stands in any script: the text from there on, lowered, begins with it. It ends with
/// the first character with which enough has been read. A neighbour that is a letter or a digit makes
/// it part of a word.
pub proof fn law_where_a_phrase_stands(text: Seq<char>, want: Seq<char>, at: int)
    requires
        0 <= at < text.len(),
    ensures
        matches_at(text, want, at) <==> want.len() <= lowered_each(text.skip(at)).len()
            && lowered_each(text.skip(at)).take(want.len() as int) == want,
        ({
            let end = run_end(text, at, want.len() as int);
            &&& at < end <= text.len()
            &&& end > at + 1 ==> lowered_each(text.subrange(at, end - 1)).len() < want.len()
            &&& end < text.len() ==> lowered_each(text.subrange(at, end)).len() >= want.len()
        }),
        boundary(text, at, true) <==> at == 0 || !chars::is_word_char(text[at - 1]),
        boundary(text, at, false) <==> !chars::is_word_char(text[at]),
        boundary(text, text.len() as int, false),
{
    let low = lowered_each(text.skip(at));
    if want.len() <= low.len() {
        assert(low.take(want.len() as int) =~= low.subrange(0, want.len() as int));
    }
    lemma_run_end(text, at, want.len() as int);
    lemma_run_is_shortest(text, at, want.len() as int);
}

proof fn lemma_run_is_shortest(text: Seq<char>, at: int, left: int)
    requires
        0 <= at < text.len(),
    ensures
        ({
            let end = run_end(text, at, left);
            &&& end > at + 1 ==> lowered_each(text.subrange(at, end - 1)).len() < left
            &&& end < text.len() ==> lowered_each(text.subrange(at, end)).len() >= left
        }),
    decreases text.len() - at,
{
    let end = run_end(text, at, left);
    let c = text[at];
    let n = chars::lowered_char(c).len() as int;
    lemma_run_end(text, at, left);
    lemma_lowered_one(c);
    if n >= left {
        assert(text.subrange(at, end) =~= seq![c]);
    } else if at + 1 < text.len() {
        lemma_run_is_shortest(text, at + 1, left - n);
        lemma_run_end(text, at + 1, left - n);
        assert(text.subrange(at, end) =~= seq![c] + text.subrange(at + 1, end));
        lemma_lowered_each_concat(seq![c], text.subrange(at + 1, end));
        assert(text.subrange(at, end - 1) =~= seq![c] + text.subrange(at + 1, end - 1));
        lemma_lowered_each_concat(seq![c], text.subrange(at + 1, end - 1));
        if end - 1 == at + 1 {
            assert(text.subrange(at + 1, end - 1) =~= Seq::<char>::empty());
            assert(lowered_each(text.subrange(at + 1, end - 1)).len() == 0);
        }
    }
}

/// The pairs are read as snippets, each in its place, and those without a trigger are left out.
pub proof fn law_pairs_are_snippets(pairs: Seq<(String, String)>, i: int)
    ensures
        as_snippets(pairs).len() == pairs.len(),
        0 <= i < pairs.len() ==> as_snippets(pairs)[i].trigger == pairs[i].0 && as_snippets(
            pairs,
        )[i].replacement == pairs[i].1,
        0 <= i < pairs.len() ==> (has_trigger()(as_snippets(pairs)[i]) <==> words::trimmed(
            pairs[i].0@,
        ).len() > 0),
{
}

} // verus!
