//! White space: splitting a text into words, joining words into a text, trimming.

use vstd::prelude::*;

use crate::chars;

verus! {

/// How many characters stand before the first white space.
pub open spec fn word_len(s: Seq<char>) -> nat
    decreases s.len(),
{
    if s.len() == 0 || chars::is_space(s[0]) {
        0
    } else {
        1 + word_len(s.drop_first())
    }
}

/// The maximal runs of characters that are not white space, in order.
pub open spec fn words(s: Seq<char>) -> Seq<Seq<char>>
    decreases s.len(),
{
    if s.len() == 0 {
        seq![]
    } else if chars::is_space(s[0]) {
        words(s.drop_first())
    } else {
        proof {
            lemma_word_len(s);
        }
        seq![s.take(word_len(s) as int)] + words(s.skip(word_len(s) as int))
    }
}

/// The texts with `sep` between neighbours.
pub open spec fn joined(texts: Seq<Seq<char>>, sep: Seq<char>) -> Seq<char>
    decreases texts.len(),
{
    if texts.len() == 0 {
        seq![]
    } else if texts.len() == 1 {
        texts[0]
    } else {
        joined(texts.drop_last(), sep) + sep + texts.last()
    }
}

/// The text without the white space at its two ends.
pub open spec fn trimmed(s: Seq<char>) -> Seq<char>
    decreases s.len(),
{
    if s.len() == 0 {
        s
    } else if chars::is_space(s[0]) {
        trimmed(s.drop_first())
    } else if chars::is_space(s.last()) {
        trimmed(s.drop_last())
    } else {
        s
    }
}

/// What a vector of texts holds.
pub open spec fn texts(v: Seq<Vec<char>>) -> Seq<Seq<char>> {
    Seq::new(v.len(), |i: int| v[i]@)
}

/// What a vector of strings holds.
pub open spec fn strings(v: Seq<String>) -> Seq<Seq<char>> {
    Seq::new(v.len(), |i: int| v[i]@)
}

/// A word: not empty, and free of white space.
pub open spec fn is_word(w: Seq<char>) -> bool {
    w.len() > 0 && forall|i: int| 0 <= i < w.len() ==> !chars::is_space(#[trigger] w[i])
}

/// The run that `word_len` measures is free of white space and ends at one, or at the end.
pub proof fn lemma_word_len(s: Seq<char>)
    ensures
        word_len(s) <= s.len(),
        forall|i: int| 0 <= i < word_len(s) ==> !chars::is_space(#[trigger] s[i]),
        word_len(s) < s.len() ==> chars::is_space(s[word_len(s) as int]),
        s.len() > 0 && !chars::is_space(s[0]) ==> word_len(s) > 0,
    decreases s.len(),
{
    if s.len() > 0 && !chars::is_space(s[0]) {
        let t = s.drop_first();
        lemma_word_len(t);
        assert forall|i: int| 0 <= i < word_len(s) implies !chars::is_space(#[trigger] s[i]) by {
            if i > 0 {
                assert(s[i] == t[i - 1]);
            }
        }
    }
}

/// A run of `n` characters that is free of white space and ends at one, or at the end, is
/// the first word's length.
proof fn lemma_word_len_is(s: Seq<char>, n: nat)
    requires
        n <= s.len(),
        forall|i: int| 0 <= i < n ==> !chars::is_space(#[trigger] s[i]),
        n < s.len() ==> chars::is_space(s[n as int]),
    ensures
        word_len(s) == n,
    decreases n,
{
    if n > 0 {
        let t = s.drop_first();
        assert forall|i: int| 0 <= i < n - 1 implies !chars::is_space(#[trigger] t[i]) by {
            assert(t[i] == s[i + 1]);
        }
        assert(!chars::is_space(s[0]));
        lemma_word_len_is(t, (n - 1) as nat);
    }
}

/// The words of `s`, split at white space.
pub fn split_words(s: &[char]) -> (v: Vec<Vec<char>>)
    ensures
        texts(v@) == words(s@),
{
    let mut v: Vec<Vec<char>> = Vec::new();
    let mut i: usize = 0;
    assert(s@.skip(0) == s@);
    while i < s.len()
        invariant
            i <= s@.len(),
            words(s@) == texts(v@) + words(s@.skip(i as int)),
        decreases s@.len() - i,
    {
        let ghost rest = s@.skip(i as int);
        if s[i].is_whitespace() {
            assert(rest[0] == s@[i as int]);
            assert(rest.drop_first() == s@.skip(i + 1));
            i += 1;
        } else {
            let start: usize = i;
            let mut w: Vec<char> = Vec::new();
            while i < s.len() && !s[i].is_whitespace()
                invariant
                    start <= i <= s@.len(),
                    w@ == s@.subrange(start as int, i as int),
                    forall|k: int| start <= k < i ==> !chars::is_space(#[trigger] s@[k]),
                ensures
                    start <= i <= s@.len(),
                    w@ == s@.subrange(start as int, i as int),
                    forall|k: int| start <= k < i ==> !chars::is_space(#[trigger] s@[k]),
                    i < s@.len() ==> chars::is_space(s@[i as int]),
                decreases s@.len() - i,
            {
                w.push(s[i]);
                i += 1;
            }
            proof {
                let n = (i - start) as nat;
                assert(!chars::is_space(s@[start as int]));
                assert(i > start);
                assert forall|k: int| 0 <= k < n implies !chars::is_space(#[trigger] rest[k]) by {
                    assert(rest[k] == s@[start + k]);
                }
                lemma_word_len_is(rest, n);
                assert(w@ == rest.take(n as int));
                assert(rest.skip(n as int) == s@.skip(i as int));
                assert(words(rest) == seq![w@] + words(s@.skip(i as int)));
            }
            let ghost before = v@;
            v.push(w);
            assert(texts(v@) == texts(before) + seq![w@]);
            assert(texts(v@) + words(s@.skip(i as int)) == texts(before) + (seq![w@] + words(
                s@.skip(i as int),
            )));
        }
    }
    assert(words(s@.skip(i as int)) == Seq::<Seq<char>>::empty());
    v
}

/// The texts with `sep` between neighbours.
pub fn join_texts(parts: &Vec<Vec<char>>, sep: &[char]) -> (out: Vec<char>)
    ensures
        out@ == joined(texts(parts@), sep@),
{
    let mut out: Vec<char> = Vec::new();
    let ghost all = texts(parts@);
    let mut i: usize = 0;
    while i < parts.len()
        invariant
            i <= parts@.len(),
            all == texts(parts@),
            out@ == joined(all.take(i as int), sep@),
        decreases parts@.len() - i,
    {
        let ghost head = all.take(i + 1);
        assert(head.drop_last() == all.take(i as int));
        assert(head.last() == parts@[i as int]@);
        if i > 0 {
            push_all(&mut out, sep);
        }
        push_all(&mut out, parts[i].as_slice());
        i += 1;
    }
    assert(all.take(i as int) == all);
    out
}

/// Appends `more` to `out`.
pub fn push_all(out: &mut Vec<char>, more: &[char])
    ensures
        final(out)@ == old(out)@ + more@,
{
    let ghost before = out@;
    let mut i: usize = 0;
    while i < more.len()
        invariant
            i <= more@.len(),
            out@ == before + more@.take(i as int),
        decreases more@.len() - i,
    {
        out.push(more[i]);
        i += 1;
    }
    assert(more@.take(i as int) == more@);
}

/// The strings with `sep` between neighbours.
pub fn join_strings(parts: &Vec<String>, sep: &str) -> (out: String)
    ensures
        out@ == joined(strings(parts@), sep@),
{
    let mut out: String = String::new();
    let ghost all = strings(parts@);
    let mut i: usize = 0;
    while i < parts.len()
        invariant
            i <= parts@.len(),
            all == strings(parts@),
            out@ == joined(all.take(i as int), sep@),
        decreases parts@.len() - i,
    {
        let ghost head = all.take(i + 1);
        assert(head.drop_last() == all.take(i as int));
        assert(head.last() == parts@[i as int]@);
        if i > 0 {
            out.append(sep);
        }
        out.append(parts[i].as_str());
        i += 1;
    }
    assert(all.take(i as int) == all);
    out
}

/// The text without the white space at its two ends.
pub fn trim(s: &[char]) -> (out: Vec<char>)
    ensures
        out@ == trimmed(s@),
{
    let mut start: usize = 0;
    let mut end: usize = s.len();
    assert(s@.subrange(0, s@.len() as int) == s@);
    while start < end && s[start].is_whitespace()
        invariant
            start <= end == s@.len(),
            trimmed(s@) == trimmed(s@.subrange(start as int, end as int)),
        ensures
            start <= end == s@.len(),
            trimmed(s@) == trimmed(s@.subrange(start as int, end as int)),
            start < end ==> !chars::is_space(s@[start as int]),
        decreases end - start,
    {
        let ghost mid = s@.subrange(start as int, end as int);
        assert(mid[0] == s@[start as int]);
        assert(mid.drop_first() == s@.subrange(start + 1, end as int));
        start += 1;
    }
    while start < end && s[end - 1].is_whitespace()
        invariant
            start <= end <= s@.len(),
            start < end ==> !chars::is_space(s@[start as int]),
            trimmed(s@) == trimmed(s@.subrange(start as int, end as int)),
        ensures
            start <= end <= s@.len(),
            trimmed(s@) == s@.subrange(start as int, end as int),
        decreases end - start,
    {
        let ghost mid = s@.subrange(start as int, end as int);
        assert(mid[0] == s@[start as int]);
        assert(mid.last() == s@[end - 1]);
        assert(mid.drop_last() == s@.subrange(start as int, end - 1));
        end -= 1;
    }
    let mut out: Vec<char> = Vec::new();
    let mut i: usize = start;
    while i < end
        invariant
            start <= i <= end <= s@.len(),
            out@ == s@.subrange(start as int, i as int),
        decreases end - i,
    {
        out.push(s[i]);
        i += 1;
    }
    out
}

/// Splitting gives words: none is empty, none holds white space.
pub proof fn lemma_words_are_words(s: Seq<char>)
    ensures
        forall|i: int| 0 <= i < words(s).len() ==> is_word(#[trigger] words(s)[i]),
    decreases s.len(),
{
    if s.len() == 0 {
    } else if chars::is_space(s[0]) {
        lemma_words_are_words(s.drop_first());
        assert(words(s) == words(s.drop_first()));
    } else {
        lemma_word_len(s);
        let n = word_len(s) as int;
        lemma_words_are_words(s.skip(n));
        assert forall|i: int| 0 <= i < words(s).len() implies is_word(#[trigger] words(s)[i]) by {
            if i == 0 {
                assert(words(s)[0] == s.take(n));
                assert forall|k: int| 0 <= k < n implies !chars::is_space(#[trigger] s.take(n)[k]) by {
                    assert(s.take(n)[k] == s[k]);
                }
            } else {
                assert(words(s)[i] == words(s.skip(n))[i - 1]);
            }
        }
    }
}

/// A word is the only word of itself.
pub proof fn lemma_words_of_word(w: Seq<char>)
    requires
        is_word(w),
    ensures
        words(w) == seq![w],
{
    lemma_word_len_is(w, w.len());
    assert(w.take(w.len() as int) == w);
    assert(words(w.skip(w.len() as int)) == Seq::<Seq<char>>::empty());
    assert(words(w) == seq![w]);
}

/// White space separates: the words of two texts with one between them are the words of the
/// first, then those of the second.
pub proof fn lemma_words_around_space(a: Seq<char>, sp: char, b: Seq<char>)
    requires
        chars::is_space(sp),
    ensures
        words(a + seq![sp] + b) == words(a) + words(b),
    decreases a.len(),
{
    let s = a + seq![sp] + b;
    if a.len() == 0 {
        assert(s[0] == sp);
        assert(s.drop_first() == b);
        assert(words(a) + words(b) == words(b));
    } else if chars::is_space(a[0]) {
        lemma_words_around_space(a.drop_first(), sp, b);
        assert(s.drop_first() == a.drop_first() + seq![sp] + b);
    } else {
        lemma_word_len(a);
        let n = word_len(a) as int;
        assert forall|i: int| 0 <= i < n implies !chars::is_space(#[trigger] s[i]) by {
            assert(s[i] == a[i]);
        }
        assert(s[n] == if n < a.len() { a[n] } else { sp });
        lemma_word_len_is(s, n as nat);
        lemma_words_around_space(a.skip(n), sp, b);
        assert(s.take(n) == a.take(n));
        assert(s.skip(n) == a.skip(n) + seq![sp] + b);
        assert(words(s) == seq![a.take(n)] + (words(a.skip(n)) + words(b)));
        assert(words(s) == words(a) + words(b));
    }
}

/// Joining words with a space and splitting again gives the words back.
pub proof fn lemma_words_of_joined(ws: Seq<Seq<char>>)
    requires
        forall|i: int| 0 <= i < ws.len() ==> is_word(#[trigger] ws[i]),
    ensures
        words(joined(ws, seq![' '])) == ws,
    decreases ws.len(),
{
    if ws.len() == 0 {
        assert(words(joined(ws, seq![' '])) == ws);
    } else if ws.len() == 1 {
        lemma_words_of_word(ws[0]);
        assert(seq![ws[0]] == ws);
    } else {
        let front = ws.drop_last();
        assert forall|i: int| 0 <= i < front.len() implies is_word(#[trigger] front[i]) by {
            assert(front[i] == ws[i]);
        }
        lemma_words_of_joined(front);
        lemma_words_around_space(joined(front, seq![' ']), ' ', ws.last());
        lemma_words_of_word(ws.last());
        assert(front + seq![ws.last()] == ws);
    }
}

/// Trimming leaves nothing exactly when everything is white space.
pub proof fn law_only_white_space_is_trimmed_away(s: Seq<char>)
    ensures
        trimmed(s).len() == 0 <==> (forall|i: int|
            0 <= i < s.len() ==> chars::is_space(#[trigger] s[i])),
    decreases s.len(),
{
    if s.len() == 0 {
    } else if chars::is_space(s[0]) {
        let t = s.drop_first();
        law_only_white_space_is_trimmed_away(t);
        if trimmed(s).len() == 0 {
            assert forall|i: int| 0 <= i < s.len() implies chars::is_space(#[trigger] s[i]) by {
                if i > 0 {
                    assert(t[i - 1] == s[i]);
                }
            }
        }
        if forall|i: int| 0 <= i < s.len() ==> chars::is_space(#[trigger] s[i]) {
            assert forall|i: int| 0 <= i < t.len() implies chars::is_space(#[trigger] t[i]) by {
                assert(t[i] == s[i + 1]);
            }
        }
    } else {
        if chars::is_space(s.last()) {
            let t = s.drop_last();
            law_only_white_space_is_trimmed_away(t);
            assert(t[0] == s[0]);
        }
        assert(!chars::is_space(s[0]));
    }
}

/// White space separates words and does nothing else: no words in nothing, one word in a text
/// without white space, and around any white space the words in front of it and then those behind.
pub proof fn law_white_space_separates_words(a: Seq<char>, blank: char, b: Seq<char>)
    requires
        chars::is_space(blank),
    ensures
        words(Seq::<char>::empty()) == Seq::<Seq<char>>::empty(),
        words(a + seq![blank] + b) == words(a) + words(b),
        a.len() > 0 && (forall|i: int| 0 <= i < a.len() ==> !chars::is_space(#[trigger] a[i]))
            ==> words(a) == seq![a],
{
    lemma_words_around_space(a, blank, b);
    if a.len() > 0 && (forall|i: int| 0 <= i < a.len() ==> !chars::is_space(#[trigger] a[i])) {
        lemma_words_of_word(a);
    }
}

/// Every text is joined, in order, and the separator stands between two texts and nowhere else.
pub proof fn law_everything_is_joined(a: Seq<Seq<char>>, b: Seq<Seq<char>>, sep: Seq<char>)
    ensures
        joined(Seq::<Seq<char>>::empty(), sep) == Seq::<char>::empty(),
        forall|w: Seq<char>| #[trigger] joined(seq![w], sep) == w,
        a.len() > 0 && b.len() > 0 ==> joined(a + b, sep) == joined(a, sep) + sep + joined(b, sep),
    decreases b.len(),
{
    if a.len() > 0 && b.len() > 0 {
        let all = a + b;
        assert(all.last() == b.last());
        assert(all.drop_last() =~= a + b.drop_last());
        if b.len() == 1 {
            assert(all.drop_last() =~= a);
        } else {
            law_everything_is_joined(a, b.drop_last(), sep);
            assert(joined(all, sep) =~= joined(a, sep) + sep + joined(b, sep));
        }
    }
}

/// Trimming takes the white space off both ends and leaves what stands between as it is.
pub proof fn law_trimming_leaves_what_is_inside(front: Seq<char>, t: Seq<char>, back: Seq<char>)
    requires
        forall|i: int| 0 <= i < front.len() ==> chars::is_space(#[trigger] front[i]),
        forall|i: int| 0 <= i < back.len() ==> chars::is_space(#[trigger] back[i]),
        t.len() > 0 ==> !chars::is_space(t[0]) && !chars::is_space(t.last()),
    ensures
        trimmed(front + t + back) == t,
    decreases front.len() + back.len(),
{
    let s = front + t + back;
    if s.len() == 0 {
        assert(s =~= t);
    } else if front.len() > 0 {
        let less = front.drop_first();
        assert(s[0] == front[0]);
        assert(s.drop_first() =~= less + t + back);
        assert forall|i: int| 0 <= i < less.len() implies chars::is_space(#[trigger] less[i]) by {
            assert(less[i] == front[i + 1]);
        }
        law_trimming_leaves_what_is_inside(less, t, back);
    } else if t.len() == 0 {
        let less = back.drop_first();
        assert(s[0] == back[0]);
        assert(s.drop_first() =~= front + t + less);
        assert forall|i: int| 0 <= i < less.len() implies chars::is_space(#[trigger] less[i]) by {
            assert(less[i] == back[i + 1]);
        }
        law_trimming_leaves_what_is_inside(front, t, less);
    } else if back.len() > 0 {
        let less = back.drop_last();
        assert(s[0] == t[0]);
        assert(s.last() == back[back.len() - 1]);
        assert(s.drop_last() =~= front + t + less);
        assert forall|i: int| 0 <= i < less.len() implies chars::is_space(#[trigger] less[i]) by {
            assert(less[i] == back[i]);
        }
        law_trimming_leaves_what_is_inside(front, t, less);
    } else {
        assert(s =~= t);
    }
}

/// What a list of texts holds is each of them, whole and in its place.
pub proof fn law_each_text_is_in_its_place(v: Seq<Vec<char>>, w: Seq<String>)
    ensures
        texts(v).len() == v.len(),
        strings(w).len() == w.len(),
        forall|i: int| 0 <= i < v.len() ==> #[trigger] texts(v)[i] == v[i]@,
        forall|i: int| 0 <= i < w.len() ==> #[trigger] strings(w)[i] == w[i]@,
{
}

} // verus!
