//! File paths, as text.

use vstd::prelude::*;

use crate::chars::{chars_of, string_of};

verus! {

/// `part` below `base`: an absolute part stands alone, and a separator goes between the two
/// unless the base is empty or already ends in one.
pub open spec fn below(base: Seq<char>, part: Seq<char>) -> Seq<char> {
    if part.len() > 0 && part[0] == '/' {
        part
    } else if base.len() == 0 || base.last() == '/' {
        base + part
    } else {
        base + seq!['/'] + part
    }
}

/// Where the last full stop stands, or -1.
pub open spec fn last_dot(name: Seq<char>) -> int
    decreases name.len(),
{
    if name.len() == 0 {
        -1
    } else if name.last() == '.' {
        name.len() - 1
    } else {
        last_dot(name.drop_last())
    }
}

/// A file name without its extension. A leading full stop starts no extension.
pub open spec fn stem(name: Seq<char>) -> Seq<char> {
    if last_dot(name) <= 0 {
        name
    } else {
        name.take(last_dot(name))
    }
}

/// A file name with another extension.
pub open spec fn with_ending(name: Seq<char>, ending: Seq<char>) -> Seq<char> {
    stem(name) + seq!['.'] + ending
}

/// The path of `part` below `base`.
pub fn join(base: &str, part: &str) -> (path: String)
    ensures
        path@ == below(base@, part@),
{
    let b: Vec<char> = chars_of(base);
    let p: Vec<char> = chars_of(part);
    if p.len() > 0 && p[0] == '/' {
        return part.to_owned();
    }
    let mut path: String = base.to_owned();
    if b.len() > 0 && b[b.len() - 1] != '/' {
        path.push('/');
    }
    path.append(part);
    path
}

/// The file name with its extension replaced by `ending`.
pub fn with_extension(name: &str, ending: &str) -> (out: String)
    ensures
        out@ == with_ending(name@, ending@),
{
    let n: Vec<char> = chars_of(name);
    let mut end: usize = n.len();
    assert(n@.take(end as int) == n@);
    while end > 0 && n[end - 1] != '.'
        invariant
            end <= n@.len(),
            last_dot(n@) == last_dot(n@.take(end as int)),
        ensures
            end <= n@.len(),
            last_dot(n@) == last_dot(n@.take(end as int)),
            end == 0 || n@[end - 1] == '.',
        decreases end,
    {
        assert(n@.take(end as int).last() == n@[end - 1]);
        assert(n@.take(end as int).drop_last() == n@.take(end - 1));
        end -= 1;
    }
    assert(end > 0 ==> n@.take(end as int).last() == n@[end - 1]);
    assert(last_dot(n@) == end - 1);
    let keep: usize = if end > 1 {
        end - 1
    } else {
        n.len()
    };
    let mut kept: Vec<char> = n;
    kept.truncate(keep);
    assert(kept@ == stem(name@));
    let mut out: String = string_of(kept.as_slice());
    out.push('.');
    out.append(ending);
    out
}

/// A name that `with_ending` gave keeps its stem and ends in the ending.
pub proof fn law_an_ending_is_replaced_once(name: Seq<char>, first: Seq<char>, second: Seq<char>)
    requires
        stem(name).len() > 0,
        forall|i: int| 0 <= i < first.len() ==> first[i] != '.',
    ensures
        stem(with_ending(name, first)) == stem(name),
        with_ending(with_ending(name, first), second) == with_ending(name, second),
{
    lemma_last_dot(stem(name), first);
    assert(with_ending(name, first).take(stem(name).len() as int) == stem(name));
}

proof fn lemma_last_dot(front: Seq<char>, ending: Seq<char>)
    requires
        forall|i: int| 0 <= i < ending.len() ==> ending[i] != '.',
    ensures
        last_dot(front + seq!['.'] + ending) == front.len(),
    decreases ending.len(),
{
    let whole = front + seq!['.'] + ending;
    if ending.len() > 0 {
        lemma_last_dot(front, ending.drop_last());
        assert(whole.drop_last() == front + seq!['.'] + ending.drop_last());
        assert(whole.last() == ending.last());
    } else {
        assert(whole.last() == '.');
    }
}

/// A part goes below a base with exactly one separator between them, and both stay whole: none is
/// added where the base is empty or ends in one, and a part that begins with one stands alone.
pub proof fn law_one_separator_joins(base: Seq<char>, part: Seq<char>)
    ensures
        part.len() > 0 && part[0] == '/' ==> below(base, part) == part,
        base.len() > 0 && base.last() != '/' && (part.len() == 0 || part[0] != '/') ==> below(
            base,
            part,
        ) == base + seq!['/'] + part,
        base.len() > 0 && base.last() == '/' && (part.len() == 0 || part[0] != '/') ==> below(
            base,
            part,
        ) == base + part,
        base.len() == 0 ==> below(base, part) == part,
{
    assert(base.len() == 0 ==> base + part =~= part);
}

/// What stands behind the last full stop of a name is replaced, and nothing else; a name without
/// one, or with one in front alone, gets the ending behind it.
pub proof fn law_only_the_ending_is_replaced(front: Seq<char>, ending: Seq<char>, other: Seq<char>)
    requires
        forall|i: int| 0 <= i < ending.len() ==> ending[i] != '.',
    ensures
        front.len() > 0 ==> with_ending(front + seq!['.'] + ending, other) == front + seq!['.']
            + other,
        with_ending(ending, other) == ending + seq!['.'] + other,
        with_ending(seq!['.'] + ending, other) == seq!['.'] + ending + seq!['.'] + other,
{
    lemma_last_dot(front, ending);
    lemma_last_dot(Seq::<char>::empty(), ending);
    lemma_no_dot(ending);
    assert(Seq::<char>::empty() + seq!['.'] + ending =~= seq!['.'] + ending);
    assert((front + seq!['.'] + ending).take(front.len() as int) =~= front);
}

proof fn lemma_no_dot(name: Seq<char>)
    requires
        forall|i: int| 0 <= i < name.len() ==> name[i] != '.',
    ensures
        last_dot(name) == -1,
    decreases name.len(),
{
    if name.len() > 0 {
        lemma_no_dot(name.drop_last());
        assert(name[name.len() - 1] != '.');
    }
}

} // verus!
