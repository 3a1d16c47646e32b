//! Word error rate: how far a transcript is from what was said, in words.

use vstd::prelude::*;

use crate::chars;
use crate::chars::{chars_of, same};
use crate::snippets;
use crate::text;
use crate::words;
use crate::words::split_words;

verus! {

/// Letters, digits and apostrophes make words; everything else separates them.
pub open spec fn word_or_space(c: char) -> char {
    if chars::is_word_char(c) || c == '\'' {
        c
    } else {
        ' '
    }
}

/// The words of a text, without case and punctuation.
pub open spec fn tokens(s: Seq<char>) -> Seq<Seq<char>> {
    words::words(chars::lowered_text(s).map_values(|c: char| word_or_space(c)))
}

pub open spec fn min(a: nat, b: nat) -> nat {
    if a <= b {
        a
    } else {
        b
    }
}

/// The fewest insertions, deletions and substitutions of words that turn one list into the other.
pub open spec fn distance(a: Seq<Seq<char>>, b: Seq<Seq<char>>) -> nat
    decreases a.len() + b.len(),
{
    if a.len() == 0 {
        b.len()
    } else if b.len() == 0 {
        a.len()
    } else {
        let swap = distance(a.drop_last(), b.drop_last()) + (if a.last() == b.last() {
            0nat
        } else {
            1nat
        });
        min(
            min(distance(a.drop_last(), b) + 1, distance(a, b.drop_last()) + 1),
            swap,
        )
    }
}

/// A rate of errors: so many in so many words, and the words are never none.
#[derive(Debug, Clone, Copy, PartialEq, Eq, Structural)]
pub struct ErrorRate {
    pub errors: usize,
    pub words: usize,
}

/// The words of `s`, without case and punctuation.
pub fn normalise(s: &str) -> (v: Vec<Vec<char>>)
    ensures
        words::texts(v@) == tokens(s@),
        2 * v@.len() <= usize::MAX + 1,
{
    let lower: Vec<char> = chars_of(s.to_lowercase().as_str());
    let mut plain: Vec<char> = Vec::new();
    let mut i: usize = 0;
    while i < lower.len()
        invariant
            i <= lower@.len(),
            lower@ == chars::lowered_text(s@),
            plain@ == lower@.take(i as int).map_values(|c: char| word_or_space(c)),
        decreases lower@.len() - i,
    {
        let c: char = lower[i];
        let kept: char = if c.is_alphanumeric() || c == '\'' {
            c
        } else {
            ' '
        };
        plain.push(kept);
        assert(plain@ =~= lower@.take(i + 1).map_values(|c: char| word_or_space(c)));
        i += 1;
    }
    assert(lower@.take(i as int) == lower@);
    let v: Vec<Vec<char>> = split_words(plain.as_slice());
    proof {
        lemma_words_are_fewer(plain@);
        assert(words::texts(v@).len() == v@.len());
    }
    v
}

/// Words need something between them.
proof fn lemma_words_are_fewer(s: Seq<char>)
    ensures
        2 * words::words(s).len() <= s.len() + 1,
    decreases s.len(),
{
    if s.len() > 0 {
        if chars::is_space(s[0]) {
            lemma_words_are_fewer(s.drop_first());
        } else {
            words::lemma_word_len(s);
            let n = words::word_len(s) as int;
            let rest = s.skip(n);
            assert(words::words(s) == seq![s.take(n)] + words::words(rest));
            if rest.len() > 0 {
                assert(rest[0] == s[n]);
                lemma_words_are_fewer(rest.drop_first());
                assert(words::words(rest) == words::words(rest.drop_first()));
            } else {
                assert(words::words(rest).len() == 0);
            }
        }
    }
}

fn smaller(a: usize, b: usize) -> (m: usize)
    ensures
        m == min(a as nat, b as nat),
{
    if a <= b {
        a
    } else {
        b
    }
}

/// The distance is at most the longer length.
pub proof fn law_distance_is_bounded(a: Seq<Seq<char>>, b: Seq<Seq<char>>)
    ensures
        distance(a, b) <= if a.len() >= b.len() {
            a.len()
        } else {
            b.len()
        },
        distance(a, b) >= a.len() - b.len(),
        distance(a, b) >= b.len() - a.len(),
    decreases a.len() + b.len(),
{
    if a.len() > 0 && b.len() > 0 {
        law_distance_is_bounded(a.drop_last(), b.drop_last());
        law_distance_is_bounded(a.drop_last(), b);
        law_distance_is_bounded(a, b.drop_last());
    }
}

/// The distance does not depend on which of the two comes first.
pub proof fn law_distance_is_symmetric(a: Seq<Seq<char>>, b: Seq<Seq<char>>)
    ensures
        distance(a, b) == distance(b, a),
    decreases a.len() + b.len(),
{
    if a.len() > 0 && b.len() > 0 {
        law_distance_is_symmetric(a.drop_last(), b.drop_last());
        law_distance_is_symmetric(a.drop_last(), b);
        law_distance_is_symmetric(a, b.drop_last());
    }
}

/// The distance is nothing exactly between equal lists.
pub proof fn law_no_distance_means_equal(a: Seq<Seq<char>>, b: Seq<Seq<char>>)
    ensures
        distance(a, b) == 0 <==> a == b,
    decreases a.len() + b.len(),
{
    if a.len() > 0 && b.len() > 0 {
        let x = a.drop_last();
        let y = b.drop_last();
        law_no_distance_means_equal(x, y);
        if distance(a, b) == 0 {
            assert(x.push(a.last()) =~= a);
            assert(y.push(b.last()) =~= b);
        }
    } else {
        assert(a.len() == 0 && b.len() == 0 ==> a =~= b);
    }
}

/// The distance between two lists of words.
pub fn edit_distance(a: &Vec<Vec<char>>, b: &Vec<Vec<char>>) -> (d: usize)
    requires
        a@.len() < usize::MAX,
        b@.len() < usize::MAX,
    ensures
        d == distance(words::texts(a@), words::texts(b@)),
{
    let ghost ta = words::texts(a@);
    let ghost tb = words::texts(b@);
    let mut prev: Vec<usize> = Vec::new();
    let mut k: usize = 0;
    while k <= b.len()
        invariant
            k <= b@.len() + 1,
            b@.len() < usize::MAX,
            tb == words::texts(b@),
            prev@.len() == k,
            forall|j: int|
                0 <= j < k ==> prev@[j] == distance(ta.take(0), #[trigger] tb.take(j)),
        decreases b@.len() + 1 - k,
    {
        prev.push(k);
        assert(distance(ta.take(0), tb.take(k as int)) == k);
        k += 1;
    }
    let mut i: usize = 1;
    while i <= a.len()
        invariant
            1 <= i <= a@.len() + 1,
            a@.len() < usize::MAX,
            b@.len() < usize::MAX,
            ta == words::texts(a@),
            tb == words::texts(b@),
            prev@.len() == b@.len() + 1,
            forall|j: int|
                0 <= j <= b@.len() ==> prev@[j] == distance(ta.take(i - 1), #[trigger] tb.take(j)),
        decreases a@.len() + 1 - i,
    {
        let mut curr: Vec<usize> = Vec::new();
        curr.push(i);
        assert(distance(ta.take(i as int), tb.take(0)) == i);
        let mut j: usize = 1;
        while j <= b.len()
            invariant
                1 <= i <= a@.len(),
                1 <= j <= b@.len() + 1,
                a@.len() < usize::MAX,
                b@.len() < usize::MAX,
                ta == words::texts(a@),
                tb == words::texts(b@),
                prev@.len() == b@.len() + 1,
                forall|m: int|
                    0 <= m <= b@.len() ==> prev@[m] == distance(ta.take(i - 1), #[trigger] tb.take(m)),
                curr@.len() == j,
                forall|m: int|
                    0 <= m < j ==> curr@[m] == distance(ta.take(i as int), #[trigger] tb.take(m)),
            decreases b@.len() + 1 - j,
        {
            let ghost x = ta.take(i as int);
            let ghost y = tb.take(j as int);
            proof {
                assert(x.drop_last() == ta.take(i - 1));
                assert(y.drop_last() == tb.take(j - 1));
                assert(x.last() == a@[i - 1]@);
                assert(y.last() == b@[j - 1]@);
                law_distance_is_bounded(ta.take(i - 1), tb.take(j as int));
                law_distance_is_bounded(ta.take(i as int), tb.take(j - 1));
                law_distance_is_bounded(ta.take(i - 1), tb.take(j - 1));
            }
            let cost: usize = if same(a[i - 1].as_slice(), b[j - 1].as_slice()) {
                0
            } else {
                1
            };
            assert(prev@[j as int] == distance(ta.take(i - 1), tb.take(j as int)));
            assert(prev@[j - 1] == distance(ta.take(i - 1), tb.take(j - 1)));
            assert(curr@[j - 1] == distance(ta.take(i as int), tb.take(j - 1)));
            let step: usize = smaller(prev[j] + 1, curr[j - 1] + 1);
            let best: usize = smaller(step, prev[j - 1] + cost);
            assert(best == distance(x, y));
            curr.push(best);
            j += 1;
        }
        prev = curr;
        i += 1;
    }
    assert(ta.take(a@.len() as int) == ta);
    assert(tb.take(b@.len() as int) == tb);
    assert(prev@[b@.len() as int] == distance(ta, tb.take(b@.len() as int)));
    prev[b.len()]
}

/// The rate of errors of a transcript. Against nothing said, any word at all is as wrong as can
/// be.
pub open spec fn rate(reference: Seq<char>, hypothesis: Seq<char>) -> (int, int) {
    let r = tokens(reference);
    let h = tokens(hypothesis);
    if r.len() == 0 {
        (
            if h.len() == 0 {
                0
            } else {
                1
            },
            1,
        )
    } else {
        (distance(r, h) as int, r.len() as int)
    }
}

/// Word error rate against the reference, after light normalisation.
///
/// Used to catch a model that silently produces wrong output, not to publish a figure.
pub fn wer(reference: &str, hypothesis: &str) -> (e: ErrorRate)
    ensures
        (e.errors as int, e.words as int) == rate(reference@, hypothesis@),
        e.words > 0,
{
    let r: Vec<Vec<char>> = normalise(reference);
    let h: Vec<Vec<char>> = normalise(hypothesis);
    assert(words::texts(r@).len() == r@.len());
    assert(words::texts(h@).len() == h@.len());
    if r.len() == 0 {
        let errors: usize = if h.len() == 0 {
            0
        } else {
            1
        };
        return ErrorRate { errors, words: 1 };
    }
    ErrorRate { errors: edit_distance(&r, &h), words: r.len() }
}

/// A transcript has no errors exactly when it has the words of the reference, in order.
pub proof fn law_no_errors_means_the_same_words(reference: Seq<char>, hypothesis: Seq<char>)
    ensures
        rate(reference, hypothesis).0 == 0 <==> tokens(reference) == tokens(hypothesis),
{
    let r = tokens(reference);
    let h = tokens(hypothesis);
    law_no_distance_means_equal(r, h);
    if r.len() == 0 && h.len() == 0 {
        assert(r =~= h);
    }
}

/// Going by way of a third list is never shorter.
pub proof fn law_a_detour_is_no_shorter(
    a: Seq<Seq<char>>,
    b: Seq<Seq<char>>,
    c: Seq<Seq<char>>,
)
    ensures
        distance(a, c) <= distance(a, b) + distance(b, c),
    decreases a.len() + b.len() + c.len(),
{
    law_distance_is_bounded(a, b);
    law_distance_is_bounded(b, c);
    law_distance_is_bounded(a, c);
    if a.len() > 0 && b.len() > 0 && c.len() > 0 {
        let x = a.drop_last();
        let y = b.drop_last();
        let z = c.drop_last();
        law_a_detour_is_no_shorter(x, b, c);
        law_a_detour_is_no_shorter(a, b, z);
        law_a_detour_is_no_shorter(a, y, c);
        law_a_detour_is_no_shorter(a, y, z);
        law_a_detour_is_no_shorter(x, y, c);
        law_a_detour_is_no_shorter(x, y, z);
    }
}

/// One word inserted, deleted or replaced.
pub open spec fn one_edit(a: Seq<Seq<char>>, b: Seq<Seq<char>>) -> bool {
    ||| exists|i: int, w: Seq<char>| 0 <= i <= a.len() && b == #[trigger] a.insert(i, w)
    ||| exists|i: int| 0 <= i < a.len() && b == #[trigger] a.remove(i)
    ||| exists|i: int, w: Seq<char>| 0 <= i < a.len() && b == #[trigger] a.update(i, w)
}

/// Lists of which each is one edit away from the one before.
pub open spec fn is_way(way: Seq<Seq<Seq<char>>>, a: Seq<Seq<char>>, b: Seq<Seq<char>>) -> bool {
    &&& way.len() > 0
    &&& way[0] == a
    &&& way.last() == b
    &&& forall|i: int| 0 <= i < way.len() - 1 ==> one_edit(#[trigger] way[i], way[i + 1])
}

proof fn lemma_common_end(a: Seq<Seq<char>>, b: Seq<Seq<char>>, w: Seq<char>)
    ensures
        distance(a.push(w), b.push(w)) <= distance(a, b),
{
    assert(a.push(w).drop_last() =~= a);
    assert(b.push(w).drop_last() =~= b);
}

proof fn lemma_insertion(a: Seq<Seq<char>>, i: int, w: Seq<char>)
    requires
        0 <= i <= a.len(),
    ensures
        distance(a, a.insert(i, w)) <= 1,
    decreases a.len(),
{
    let b = a.insert(i, w);
    law_distance_is_bounded(a, a);
    law_no_distance_means_equal(a, a);
    if i == a.len() {
        assert(b.drop_last() =~= a);
        if a.len() == 0 {
            assert(distance(a, b) == 1);
        }
    } else {
        let x = a.drop_last();
        lemma_insertion(x, i, w);
        lemma_common_end(x, x.insert(i, w), a.last());
        assert(x.push(a.last()) =~= a);
        assert(x.insert(i, w).push(a.last()) =~= b);
    }
}

proof fn lemma_substitution(a: Seq<Seq<char>>, i: int, w: Seq<char>)
    requires
        0 <= i < a.len(),
    ensures
        distance(a, a.update(i, w)) <= 1,
    decreases a.len(),
{
    let b = a.update(i, w);
    let x = a.drop_last();
    if i == a.len() - 1 {
        law_no_distance_means_equal(x, x);
        assert(b.drop_last() =~= x);
    } else {
        lemma_substitution(x, i, w);
        lemma_common_end(x, x.update(i, w), a.last());
        assert(x.push(a.last()) =~= a);
        assert(x.update(i, w).push(a.last()) =~= b);
    }
}

/// One edit is a distance of one at most.
pub proof fn law_one_edit_is_near(a: Seq<Seq<char>>, b: Seq<Seq<char>>)
    requires
        one_edit(a, b),
    ensures
        distance(a, b) <= 1,
{
    if exists|i: int, w: Seq<char>| 0 <= i <= a.len() && b == #[trigger] a.insert(i, w) {
        let (i, w) = choose|i: int, w: Seq<char>|
            0 <= i <= a.len() && b == #[trigger] a.insert(i, w);
        lemma_insertion(a, i, w);
    } else if exists|i: int| 0 <= i < a.len() && b == #[trigger] a.remove(i) {
        let i = choose|i: int| 0 <= i < a.len() && b == #[trigger] a.remove(i);
        lemma_insertion(b, i, a[i]);
        assert(b.insert(i, a[i]) =~= a);
        law_distance_is_symmetric(a, b);
    } else {
        let (i, w) = choose|i: int, w: Seq<char>|
            0 <= i < a.len() && b == #[trigger] a.update(i, w);
        lemma_substitution(a, i, w);
    }
}

/// No way from one list to the other has fewer edits than the distance.
pub proof fn law_no_way_is_shorter(way: Seq<Seq<Seq<char>>>, a: Seq<Seq<char>>, b: Seq<Seq<char>>)
    requires
        is_way(way, a, b),
    ensures
        distance(a, b) <= way.len() - 1,
    decreases way.len(),
{
    if way.len() == 1 {
        law_no_distance_means_equal(a, b);
    } else {
        let front = way.drop_last();
        let n = front.len() - 1;
        assert forall|i: int| 0 <= i < front.len() - 1 implies one_edit(
            #[trigger] front[i],
            front[i + 1],
        ) by {
            assert(front[i] == way[i]);
            assert(front[i + 1] == way[i + 1]);
        }
        law_no_way_is_shorter(front, a, front.last());
        assert(one_edit(way[n], way[n + 1]));
        law_one_edit_is_near(way[n], way[n + 1]);
        law_a_detour_is_no_shorter(a, way[n], b);
    }
}

/// An edit before a way makes a way.
proof fn lemma_step_before(
    a: Seq<Seq<char>>,
    x: Seq<Seq<char>>,
    b: Seq<Seq<char>>,
    way: Seq<Seq<Seq<char>>>,
)
    requires
        one_edit(a, x),
        is_way(way, x, b),
    ensures
        is_way(seq![a] + way, a, b),
{
    let longer = seq![a] + way;
    assert forall|i: int| 0 <= i < longer.len() - 1 implies one_edit(
        #[trigger] longer[i],
        longer[i + 1],
    ) by {
        assert(longer[i + 1] == way[i]);
        if i > 0 {
            assert(longer[i] == way[i - 1]);
        }
    }
    assert(longer.last() == way.last());
}

/// An edit behind a way makes a way.
proof fn lemma_step_behind(
    a: Seq<Seq<char>>,
    y: Seq<Seq<char>>,
    b: Seq<Seq<char>>,
    way: Seq<Seq<Seq<char>>>,
)
    requires
        is_way(way, a, y),
        one_edit(y, b),
    ensures
        is_way(way.push(b), a, b),
{
    let longer = way.push(b);
    assert forall|i: int| 0 <= i < longer.len() - 1 implies one_edit(
        #[trigger] longer[i],
        longer[i + 1],
    ) by {
        assert(longer[i] == way[i]);
        if i + 1 < way.len() {
            assert(longer[i + 1] == way[i + 1]);
        }
    }
}

/// A way with the same last word added throughout is a way.
proof fn lemma_way_with_end(
    x: Seq<Seq<char>>,
    y: Seq<Seq<char>>,
    way: Seq<Seq<Seq<char>>>,
    w: Seq<char>,
)
    requires
        is_way(way, x, y),
    ensures
        is_way(Seq::new(way.len(), |i: int| way[i].push(w)), x.push(w), y.push(w)),
{
    let kept = Seq::new(way.len(), |i: int| way[i].push(w));
    assert forall|i: int| 0 <= i < kept.len() - 1 implies one_edit(#[trigger] kept[i], kept[i + 1]) by {
        assert(one_edit(way[i], way[i + 1]));
        lemma_edit_with_common_end(way[i], way[i + 1], w);
    }
}

/// There is a way of as many edits as the distance, which is therefore the fewest.
pub proof fn law_a_shortest_way_exists(a: Seq<Seq<char>>, b: Seq<Seq<char>>)
    ensures
        exists|way: Seq<Seq<Seq<char>>>| #[trigger]
            is_way(way, a, b) && way.len() - 1 == distance(a, b),
{
    let way = shortest_way(a, b);
    assert(is_way(way, a, b));
}

proof fn shortest_way(a: Seq<Seq<char>>, b: Seq<Seq<char>>) -> (way: Seq<Seq<Seq<char>>>)
    ensures
        is_way(way, a, b),
        way.len() - 1 == distance(a, b),
    decreases a.len() + b.len(),
{
    if a.len() == 0 && b.len() == 0 {
        assert(a =~= b);
        seq![a]
    } else if a.len() > 0 && (b.len() == 0 || distance(a, b) == distance(a.drop_last(), b) + 1) {
        // The last word of `a` goes first.
        let x = a.drop_last();
        if b.len() == 0 {
            law_distance_is_bounded(x, b);
        }
        assert(a.remove(a.len() - 1) =~= x);
        let rest = shortest_way(x, b);
        lemma_step_before(a, x, b, rest);
        seq![a] + rest
    } else if b.len() > 0 && (a.len() == 0 || distance(a, b) == distance(a, b.drop_last()) + 1) {
        // The last word of `b` comes last.
        let y = b.drop_last();
        assert(y.insert(y.len() as int, b.last()) =~= b);
        let rest = shortest_way(a, y);
        lemma_step_behind(a, y, b, rest);
        rest.push(b)
    } else {
        // The last words are the same, or one takes the place of the other.
        let x = a.drop_last();
        let y = b.drop_last();
        let w = a.last();
        let rest = shortest_way(x, y);
        let kept = Seq::new(rest.len(), |i: int| rest[i].push(w));
        lemma_way_with_end(x, y, rest, w);
        assert(x.push(w) =~= a);
        if w == b.last() {
            assert(y.push(w) =~= b);
            kept
        } else {
            assert(y.push(w).update(y.len() as int, b.last()) =~= b);
            lemma_step_behind(a, y.push(w), b, kept);
            kept.push(b)
        }
    }
}

proof fn lemma_edit_with_common_end(a: Seq<Seq<char>>, b: Seq<Seq<char>>, w: Seq<char>)
    requires
        one_edit(a, b),
    ensures
        one_edit(a.push(w), b.push(w)),
{
    if exists|i: int, v: Seq<char>| 0 <= i <= a.len() && b == #[trigger] a.insert(i, v) {
        let (i, v) = choose|i: int, v: Seq<char>|
            0 <= i <= a.len() && b == #[trigger] a.insert(i, v);
        assert(b.push(w) =~= a.push(w).insert(i, v));
    } else if exists|i: int| 0 <= i < a.len() && b == #[trigger] a.remove(i) {
        let i = choose|i: int| 0 <= i < a.len() && b == #[trigger] a.remove(i);
        assert(b.push(w) =~= a.push(w).remove(i));
    } else {
        let (i, v) = choose|i: int, v: Seq<char>|
            0 <= i < a.len() && b == #[trigger] a.update(i, v);
        assert(b.push(w) =~= a.push(w).update(i, v));
    }
}

/// A text lowered character by character and with every character that makes no word turned into a
/// space is made of what its parts come to.
proof fn lemma_plain_parts(a: Seq<char>, b: Seq<char>)
    ensures
        snippets::lowered_each(a + b).map_values(|c: char| word_or_space(c))
            == snippets::lowered_each(a).map_values(|c: char| word_or_space(c))
            + snippets::lowered_each(b).map_values(|c: char| word_or_space(c)),
{
    snippets::lemma_lowered_each_concat(a, b);
    assert(snippets::lowered_each(a + b).map_values(|c: char| word_or_space(c))
        =~= snippets::lowered_each(a).map_values(|c: char| word_or_space(c))
        + snippets::lowered_each(b).map_values(|c: char| word_or_space(c)));
}

/// Every word counts: the words of two texts with a separator between them are those of the one and
/// then those of the other, all of them. A separator is any ASCII character but a letter, a digit
/// and the apostrophe, and any other that is no letter and no digit and that lowering leaves as it is.
/// The texts are to be lowered character by character, as all ASCII texts are.
pub proof fn law_every_word_counts(a: Seq<char>, sep: char, b: Seq<char>)
    requires
        (sep as u32) < 128 ==> !('a' <= sep <= 'z') && !('A' <= sep <= 'Z') && !('0' <= sep <= '9')
            && sep != '\'',
        (sep as u32) >= 128 ==> !chars::is_word_char(sep) && chars::lowered_char(sep) == seq![sep],
        text::lowers_by_character(a),
        text::lowers_by_character(b),
        text::lowers_by_character(a + seq![sep] + b),
    ensures
        tokens(a + seq![sep] + b) == tokens(a) + tokens(b),
{
    let one = seq![sep];
    let f = |c: char| word_or_space(c);
    lemma_plain_parts(a + one, b);
    lemma_plain_parts(a, one);
    snippets::lemma_lowered_one(sep);
    assert(chars::lowered_char(sep).map_values(f) =~= seq![' ']);
    words::lemma_words_around_space(
        snippets::lowered_each(a).map_values(f),
        ' ',
        snippets::lowered_each(b).map_values(f),
    );
}

/// Letters, digits and apostrophes in a row are one word: as it stands where lowering changes
/// nothing in it, and in lowercase where it is ASCII.
pub proof fn law_a_run_is_one_word(s: Seq<char>)
    requires
        s.len() > 0,
    ensures
        (forall|i: int|
            0 <= i < s.len() ==> ('a' <= #[trigger] s[i] <= 'z' || '0' <= s[i] <= '9' || s[i]
                == '\'')) ==> tokens(s) == seq![s],
        (forall|i: int|
            0 <= i < s.len() ==> ('a' <= #[trigger] s[i] <= 'z' || 'A' <= s[i] <= 'Z' || '0' <= s[i]
                <= '9' || s[i] == '\'')) ==> tokens(s) == seq![chars::lowered_text(s)],
        chars::lowered_text(s) == s && (forall|i: int|
            0 <= i < s.len() ==> (chars::is_word_char(#[trigger] s[i]) || s[i] == '\'')
                && !chars::is_space(s[i])) ==> tokens(s) == seq![s],
        tokens(Seq::<char>::empty()) == Seq::<Seq<char>>::empty(),
{
    let f = |c: char| word_or_space(c);
    let low = chars::lowered_text(s);
    let none = Seq::<char>::empty();
    assert(chars::lowered_text(none).map_values(f) =~= none);
    if forall|i: int|
        0 <= i < s.len() ==> ('a' <= #[trigger] s[i] <= 'z' || 'A' <= s[i] <= 'Z' || '0' <= s[i]
            <= '9' || s[i] == '\'') {
        assert(chars::is_ascii_text(s));
        assert forall|i: int| 0 <= i < low.len() implies !chars::is_space(#[trigger] low[i])
            && word_or_space(low[i]) == low[i] by {
            assert('a' <= s[i] <= 'z' || 'A' <= s[i] <= 'Z' || '0' <= s[i] <= '9' || s[i] == '\'');
        }
        assert(low.map_values(f) =~= low);
        words::lemma_words_of_word(low);
        if forall|i: int|
            0 <= i < s.len() ==> ('a' <= #[trigger] s[i] <= 'z' || '0' <= s[i] <= '9' || s[i]
                == '\'') {
            assert(low =~= s);
        }
    }
    if low == s && (forall|i: int|
        0 <= i < s.len() ==> (chars::is_word_char(#[trigger] s[i]) || s[i] == '\'')
            && !chars::is_space(s[i])) {
        assert(low.map_values(f) =~= s);
        words::lemma_words_of_word(s);
    }
}

/// Leaving out the last of some words costs one error each.
proof fn lemma_distance_to_front(a: Seq<Seq<char>>, b: Seq<Seq<char>>)
    ensures
        distance(a + b, a) == b.len(),
    decreases b.len(),
{
    law_distance_is_bounded(a + b, a);
    if b.len() == 0 {
        assert(a + b =~= a);
        law_no_distance_means_equal(a, a);
    } else {
        let all = a + b;
        lemma_distance_to_front(a, b.drop_last());
        assert(all.drop_last() =~= a + b.drop_last());
        if a.len() > 0 {
            assert(distance(all, a) <= distance(all.drop_last(), a) + 1);
        }
    }
}

/// What is left out is wrong: a transcript that stops before the last words of the reference has
/// as many errors as words are missing, out of all the words of the reference.
pub proof fn law_missing_words_are_errors(heard: Seq<char>, sep: char, missed: Seq<char>)
    requires
        (sep as u32) < 128,
        !('a' <= sep <= 'z') && !('A' <= sep <= 'Z') && !('0' <= sep <= '9') && sep != '\'',
        text::lowers_by_character(heard),
        text::lowers_by_character(missed),
        text::lowers_by_character(heard + seq![sep] + missed),
        tokens(heard).len() + tokens(missed).len() > 0,
    ensures
        rate(heard + seq![sep] + missed, heard) == (
            tokens(missed).len() as int,
            (tokens(heard).len() + tokens(missed).len()) as int,
        ),
{
    law_every_word_counts(heard, sep, missed);
    lemma_distance_to_front(tokens(heard), tokens(missed));
}

/// The errors are the fewest changes of one word that make the reference of the transcript, counted
/// against every word of the reference; against no words at all, any word is one error in one.
pub proof fn law_errors_are_the_fewest_changes(
    reference: Seq<char>,
    hypothesis: Seq<char>,
    way: Seq<Seq<Seq<char>>>,
)
    ensures
        tokens(reference).len() > 0 ==> {
            let r = rate(reference, hypothesis);
            &&& r.1 == tokens(reference).len()
            &&& is_way(way, tokens(reference), tokens(hypothesis)) ==> r.0 <= way.len() - 1
            &&& exists|best: Seq<Seq<Seq<char>>>| #[trigger]
                is_way(best, tokens(reference), tokens(hypothesis)) && best.len() - 1 == r.0
        },
        tokens(reference).len() == 0 && tokens(hypothesis).len() == 0 ==> rate(
            reference,
            hypothesis,
        ) == (0int, 1int),
        tokens(reference).len() == 0 && tokens(hypothesis).len() > 0 ==> rate(
            reference,
            hypothesis,
        ) == (1int, 1int),
{
    if is_way(way, tokens(reference), tokens(hypothesis)) {
        law_no_way_is_shorter(way, tokens(reference), tokens(hypothesis));
    }
    law_a_shortest_way_exists(tokens(reference), tokens(hypothesis));
}

} // verus!
