//! Local transcript history.
//!
//! A short list of texts, capped by age and by count so that it cannot grow without bound.
//! Text only: audio is never kept.

use vstd::prelude::*;

use crate::order;
use crate::order::{sort_descending, Keyed};
use crate::sieve;

verus! {

/// Hard ceiling regardless of the retention window, so that a heavy day cannot bloat the list.
pub const MAX_ENTRIES: usize = 1000;

pub const SECONDS_PER_DAY: u64 = 86_400;

/// One transcript. `D` is how long it took to say.
#[derive(Debug, Clone)]
pub struct Entry<D> {
    /// Unix seconds.
    pub at: u64,
    pub text: String,
    /// How much audio produced it.
    pub duration: D,
}

/// History is sorted by time.
impl<D> Keyed for Entry<D> {
    open spec fn key(&self) -> u64 {
        self.at
    }

    fn key_of(&self) -> (k: u64) {
        self.at
    }
}

/// The oldest moment inside the window.
pub open spec fn cutoff(now: u64, retention_days: u32) -> int {
    let start = now - retention_days * SECONDS_PER_DAY;
    if start < 0 {
        0
    } else {
        start
    }
}

/// Holds of an entry no older than `oldest`.
pub open spec fn not_before<D>(oldest: int) -> spec_fn(Entry<D>) -> bool {
    |e: Entry<D>| e.at >= oldest
}

/// The entries inside the window; zero days keep every entry.
pub open spec fn in_window<D>(entries: Seq<Entry<D>>, retention_days: u32, now: u64) -> Seq<
    Entry<D>,
> {
    if retention_days > 0 {
        entries.filter(not_before::<D>(cutoff(now, retention_days)))
    } else {
        entries
    }
}

/// At most the first `MAX_ENTRIES`.
pub open spec fn capped<D>(entries: Seq<Entry<D>>) -> Seq<Entry<D>> {
    if entries.len() > MAX_ENTRIES {
        entries.take(MAX_ENTRIES as int)
    } else {
        entries
    }
}

/// What pruning keeps: the entries inside the window, newest first, and of those at most
/// `MAX_ENTRIES`.
pub open spec fn pruned<D>(entries: Seq<Entry<D>>, retention_days: u32, now: u64) -> Seq<Entry<D>> {
    capped(order::descending(in_window(entries, retention_days, now)))
}

/// Holds of an entry of another moment.
pub open spec fn not_at<D>(at: u64) -> spec_fn(Entry<D>) -> bool {
    |e: Entry<D>| e.at != at
}

/// `SystemTime::elapsed` of the Unix epoch, in whole seconds: the time that the clock shows, or
/// `None` where it stands before the epoch. Nothing is claimed of the reading: a clock may show any
/// time, and be set back between two calls.
#[verifier::external_body]
fn unix_seconds() -> (s: Option<u64>) {
    std::time::UNIX_EPOCH.elapsed().map(|d| d.as_secs()).ok()
}

/// The reading of the clock, zero where it stands before the epoch.
pub fn seconds_or_zero(reading: Option<u64>) -> (s: u64)
    ensures
        s == (match reading {
            Some(t) => t,
            None => 0u64,
        }),
{
    match reading {
        Some(t) => t,
        None => 0,
    }
}

/// Unix seconds: the clock's reading as `seconds_or_zero` has it, which may be any number.
pub fn now() -> u64 {
    seconds_or_zero(unix_seconds())
}

/// Drops entries older than `retention_days` as of `now`, then trims to `MAX_ENTRIES`.
pub fn prune_at<D>(entries: Vec<Entry<D>>, retention_days: u32, now: u64) -> (out: Vec<Entry<D>>)
    ensures
        out@ == pruned(entries@, retention_days, now),
{
    let kept: Vec<Entry<D>> = if retention_days > 0 {
        let window: u64 = retention_days as u64 * SECONDS_PER_DAY;
        let oldest: u64 = if now >= window {
            now - window
        } else {
            0
        };
        let mut recent: Vec<Entry<D>> = Vec::new();
        assert(entries@.take(0).filter(not_before::<D>(oldest as int)) =~= recent@) by {
            reveal(Seq::filter);
        }
        for e in it: entries
            invariant
                it.seq() == entries@,
                recent@ == entries@.take(it.index() as int).filter(not_before::<D>(oldest as int)),
        {
            proof {
                reveal(Seq::filter);
                let i = it.index() as int;
                assert(entries@.take(i + 1).drop_last() =~= entries@.take(i));
                assert(entries@.take(i + 1).last() == e);
            }
            if e.at >= oldest {
                recent.push(e);
            }
        }
        assert(entries@.take(entries@.len() as int) =~= entries@);
        recent
    } else {
        entries
    };
    // Newest first, so that truncation drops the oldest.
    let mut sorted: Vec<Entry<D>> = sort_descending(kept);
    sorted.truncate(MAX_ENTRIES);
    sorted
}

/// Drops entries older than `retention_days`, then trims to `MAX_ENTRIES`.
///
/// `retention_days == 0` means keep forever, subject only to the count cap.
pub fn prune<D>(entries: Vec<Entry<D>>, retention_days: u32) -> (out: Vec<Entry<D>>)
    ensures
        exists|t: u64| out@ == #[trigger] pruned(entries@, retention_days, t),
        retention_days == 0 ==> out@ == capped(order::descending(entries@)),
{
    prune_at(entries, retention_days, now())
}

/// What a history file comes to: nothing where there is none or it cannot be read, and otherwise
/// its entries, pruned, so that the file cannot grow without bound.
pub open spec fn loaded<D>(
    file: Option<Vec<Entry<D>>>,
    retention_days: u32,
    now: u64,
) -> Seq<Entry<D>> {
    match file {
        Some(entries) => pruned(entries@, retention_days, now),
        None => seq![],
    }
}

/// The history as of `now`. `file` holds the entries of the history file, `None` where there is no
/// file or it cannot be read.
pub fn load_at<D>(file: Option<Vec<Entry<D>>>, retention_days: u32, now: u64) -> (out: Vec<Entry<D>>)
    ensures
        out@ == loaded(file, retention_days, now),
{
    match file {
        Some(entries) => prune_at(entries, retention_days, now),
        None => Vec::new(),
    }
}

/// The history. `file` holds the entries of the history file, `None` where there is no file or it
/// cannot be read.
pub fn load<D>(file: Option<Vec<Entry<D>>>, retention_days: u32) -> (out: Vec<Entry<D>>)
    ensures
        exists|t: u64| out@ == #[trigger] loaded(file, retention_days, t),
        file is None ==> out@ == Seq::<Entry<D>>::empty(),
        file matches Some(entries) ==> (retention_days == 0 ==> out@ == capped(
            order::descending(entries@),
        )),
{
    load_at(file, retention_days, now())
}

/// The history after a new transcript, pruned as of the moment of that transcript.
pub fn append_at<D>(
    entries: Vec<Entry<D>>,
    text: &str,
    duration: D,
    retention_days: u32,
    now: u64,
) -> (out: Vec<Entry<D>>)
    ensures
        exists|e: Entry<D>|
            e.at == now && e.text@ == text@ && e.duration == duration && out@
                == #[trigger] pruned(seq![e] + entries@, retention_days, now),
{
    let e: Entry<D> = Entry { at: now, text: text.to_string(), duration };
    let mut all: Vec<Entry<D>> = entries;
    all.insert(0, e);
    assert(all@ =~= seq![e] + entries@);
    prune_at(all, retention_days, now)
}

/// The history after a new transcript.
pub fn append<D>(entries: Vec<Entry<D>>, text: &str, duration: D, retention_days: u32) -> (out: Vec<
    Entry<D>,
>)
    ensures
        exists|e: Entry<D>|
            e.text@ == text@ && e.duration == duration && out@ == #[trigger] pruned(
                seq![e] + entries@,
                retention_days,
                e.at,
            ),
{
    append_at(entries, text, duration, retention_days, now())
}

/// The history without the entries of one moment.
pub fn delete<D>(entries: Vec<Entry<D>>, at: u64) -> (out: Vec<Entry<D>>)
    ensures
        out@ == entries@.filter(not_at::<D>(at)),
{
    let mut kept: Vec<Entry<D>> = Vec::new();
    assert(entries@.take(0).filter(not_at::<D>(at)) =~= kept@) by {
        reveal(Seq::filter);
    }
    for e in it: entries
        invariant
            it.seq() == entries@,
            kept@ == entries@.take(it.index() as int).filter(not_at::<D>(at)),
    {
        proof {
            reveal(Seq::filter);
            let i = it.index() as int;
            assert(entries@.take(i + 1).drop_last() =~= entries@.take(i));
            assert(entries@.take(i + 1).last() == e);
        }
        if e.at != at {
            kept.push(e);
        }
    }
    assert(entries@.take(entries@.len() as int) =~= entries@);
    kept
}

/// However much is dictated, the history holds no more than `MAX_ENTRIES`.
pub proof fn law_history_is_capped<D>(entries: Seq<Entry<D>>, retention_days: u32, now: u64)
    ensures
        pruned(entries, retention_days, now).len() <= MAX_ENTRIES,
{
}

/// The newest entry comes first.
pub proof fn law_newest_first<D>(entries: Seq<Entry<D>>, retention_days: u32, now: u64)
    ensures
        forall|i: int, j: int|
            0 <= i < j < pruned(entries, retention_days, now).len() ==> (#[trigger] pruned(
                entries,
                retention_days,
                now,
            )[i]).at >= (#[trigger] pruned(entries, retention_days, now)[j]).at,
{
    let window = in_window(entries, retention_days, now);
    order::law_descending_is_sorted(window);
    let all = order::descending(window);
    assert forall|i: int, j: int|
        0 <= i < j < pruned(entries, retention_days, now).len() implies (#[trigger] pruned(
        entries,
        retention_days,
        now,
    )[i]).at >= (#[trigger] pruned(entries, retention_days, now)[j]).at by {
        assert(all[i].key() >= all[j].key());
    }
}

/// Nothing older than the window is kept.
pub proof fn law_nothing_old_is_kept<D>(entries: Seq<Entry<D>>, retention_days: u32, now: u64)
    requires
        retention_days > 0,
    ensures
        forall|i: int|
            0 <= i < pruned(entries, retention_days, now).len() ==> (#[trigger] pruned(
                entries,
                retention_days,
                now,
            )[i]).at >= cutoff(now, retention_days),
{
    broadcast use vstd::seq_lib::group_to_multiset_ensures;

    let pred = not_before::<D>(cutoff(now, retention_days));
    let window = entries.filter(pred);
    let all = order::descending(window);
    order::law_descending_is_sorted(window);
    assert forall|i: int| 0 <= i < pruned(entries, retention_days, now).len() implies (
    #[trigger] pruned(entries, retention_days, now)[i]).at >= cutoff(now, retention_days) by {
        assert(all.contains(all[i]));
        assert(all.to_multiset().count(all[i]) > 0);
        assert(window.contains(all[i]));
        let k = choose|k: int| 0 <= k < window.len() && window[k] == all[i];
        entries.lemma_filter_pred(pred, k);
    }
}

/// Zero days keep everything, as long as the cap has room.
pub proof fn law_zero_days_keep_everything<D>(entries: Seq<Entry<D>>, now: u64)
    requires
        entries.len() <= MAX_ENTRIES,
    ensures
        pruned(entries, 0, now).to_multiset() == entries.to_multiset(),
{
    order::law_descending_is_sorted(entries);
}

/// Where the cap cuts, what it cuts off is no newer than anything it keeps.
pub proof fn law_the_cap_drops_the_oldest<D>(
    entries: Seq<Entry<D>>,
    retention_days: u32,
    now: u64,
    i: int,
    j: int,
)
    requires
        0 <= i < MAX_ENTRIES <= j < in_window(entries, retention_days, now).len(),
    ensures
        ({
            let all = order::descending(in_window(entries, retention_days, now));
            &&& pruned(entries, retention_days, now)[i] == all[i]
            &&& all[i].at >= all[j].at
        }),
{
    let window = in_window(entries, retention_days, now);
    order::law_descending_is_sorted(window);
    assert(order::descending(window)[i].key() >= order::descending(window)[j].key());
}

/// Pruning what has just been pruned changes nothing.
pub proof fn law_pruning_twice_is_pruning_once<D>(
    entries: Seq<Entry<D>>,
    retention_days: u32,
    now: u64,
)
    ensures
        pruned(pruned(entries, retention_days, now), retention_days, now) == pruned(
            entries,
            retention_days,
            now,
        ),
{
    let once = pruned(entries, retention_days, now);
    law_newest_first(entries, retention_days, now);
    if retention_days > 0 {
        law_nothing_old_is_kept(entries, retention_days, now);
        sieve::lemma_filter_keeps_all(once, not_before::<D>(cutoff(now, retention_days)));
    }
    assert forall|i: int, j: int| 0 <= i < j < once.len() implies (#[trigger] once[i]).key() >= (
    #[trigger] once[j]).key() by {
        assert(once[i].at >= once[j].at);
    }
    order::law_sorted_items_stay(once);
}

/// A new transcript leads the history, unless an entry claims to be from the future.
pub proof fn law_a_new_entry_leads<D>(e: Entry<D>, entries: Seq<Entry<D>>, retention_days: u32)
    requires
        forall|i: int| 0 <= i < entries.len() ==> (#[trigger] entries[i]).at <= e.at,
    ensures
        pruned(seq![e] + entries, retention_days, e.at).len() > 0,
        pruned(seq![e] + entries, retention_days, e.at)[0] == e,
{
    let all = seq![e] + entries;
    let window = in_window(all, retention_days, e.at);
    if retention_days > 0 {
        let pred = not_before::<D>(cutoff(e.at, retention_days));
        Seq::filter_distributes_over_add(seq![e], entries, pred);
        sieve::lemma_filter_keeps_all(seq![e], pred);
        assert(window =~= seq![e] + entries.filter(pred));
        assert forall|i: int| 0 <= i < window.len() implies window[0].key() >= (
        #[trigger] window[i]).key() by {
            if i > 0 {
                let f = entries.filter(pred);
                assert(window[i] == f[i - 1]);
                lemma_filtered_from(entries, pred, i - 1);
            }
        }
    } else {
        assert forall|i: int| 0 <= i < window.len() implies window[0].key() >= (
        #[trigger] window[i]).key() by {
            if i > 0 {
                assert(window[i] == entries[i - 1]);
            }
        }
    }
    order::law_descending_is_sorted(window);
    order::law_first_of_the_largest_stays_first(window);
}

proof fn lemma_filtered_from<A>(s: Seq<A>, pred: spec_fn(A) -> bool, i: int)
    requires
        0 <= i < s.filter(pred).len(),
    ensures
        exists|k: int| 0 <= k < s.len() && s[k] == s.filter(pred)[i],
    decreases s.len(),
{
    reveal(Seq::filter);
    let t = s.drop_last();
    if i < t.filter(pred).len() {
        lemma_filtered_from(t, pred, i);
        let k = choose|k: int| 0 <= k < t.len() && t[k] == t.filter(pred)[i];
        assert(s[k] == s.filter(pred)[i]);
    } else {
        assert(s[s.len() - 1] == s.filter(pred)[i]);
    }
}

/// Deleting a moment leaves no entry of it, and deleting a moment that is not there changes
/// nothing.
pub proof fn law_a_deleted_moment_is_gone<D>(entries: Seq<Entry<D>>, at: u64)
    ensures
        forall|i: int|
            0 <= i < entries.filter(not_at::<D>(at)).len() ==> (#[trigger] entries.filter(
                not_at::<D>(at),
            )[i]).at != at,
        (forall|i: int| 0 <= i < entries.len() ==> (#[trigger] entries[i]).at != at)
            ==> entries.filter(not_at::<D>(at)) == entries,
{
    let pred = not_at::<D>(at);
    assert forall|i: int| 0 <= i < entries.filter(pred).len() implies (#[trigger] entries.filter(
        pred,
    )[i]).at != at by {
        entries.lemma_filter_pred(pred, i);
    }
    if forall|i: int| 0 <= i < entries.len() ==> (#[trigger] entries[i]).at != at {
        sieve::lemma_filter_keeps_all(entries, pred);
    }
}

/// No entry inside the window is dropped while the cap of 1000 has room, and none outside it is
/// kept: an entry is inside for as many days of 86400 seconds as are to be kept, and for good where
/// that number is zero.
pub proof fn law_the_window_decides<D>(
    entries: Seq<Entry<D>>,
    retention_days: u32,
    now: u64,
    e: Entry<D>,
)
    ensures
        entries.len() <= 1000 && (retention_days == 0 || e.at + retention_days * 86400 >= now)
            ==> pruned(entries, retention_days, now).to_multiset().count(e)
            == entries.to_multiset().count(e),
        retention_days > 0 && e.at + retention_days * 86400 < now ==> pruned(
            entries,
            retention_days,
            now,
        ).to_multiset().count(e) == 0,
{
    let window = in_window(entries, retention_days, now);
    let sorted = order::descending(window);
    let pred = not_before::<D>(cutoff(now, retention_days));
    order::law_descending_is_sorted(window);
    assert(retention_days * 86400 >= 0) by (nonlinear_arith);
    if retention_days > 0 {
        sieve::lemma_filter_counts(entries, pred, e);
        lemma_filter_is_no_longer(entries, pred);
    }
    if sorted.len() > 1000 {
        lemma_front_counts(sorted, 1000, e);
    }
}

proof fn lemma_filter_is_no_longer<A>(s: Seq<A>, pred: spec_fn(A) -> bool)
    ensures
        s.filter(pred).len() <= s.len(),
    decreases s.len(),
{
    reveal(Seq::filter);
    if s.len() > 0 {
        lemma_filter_is_no_longer(s.drop_last(), pred);
    }
}

proof fn lemma_front_counts<A>(s: Seq<A>, n: int, item: A)
    requires
        0 <= n <= s.len(),
    ensures
        s.to_multiset().count(item) == s.take(n).to_multiset().count(item)
            + s.skip(n).to_multiset().count(item),
{
    vstd::seq_lib::lemma_multiset_commutative(s.take(n), s.skip(n));
    assert(s.take(n) + s.skip(n) =~= s);
}

/// What the cap drops is the oldest: where an entry inside the window is not kept as often as it
/// stood there, 1000 entries are kept, and none of them is older than it.
pub proof fn law_the_oldest_go_first<D>(
    entries: Seq<Entry<D>>,
    retention_days: u32,
    now: u64,
    e: Entry<D>,
)
    requires
        retention_days == 0 || e.at + retention_days * 86400 >= now,
        pruned(entries, retention_days, now).to_multiset().count(e)
            < entries.to_multiset().count(e),
    ensures
        pruned(entries, retention_days, now).len() == 1000,
        forall|i: int|
            0 <= i < 1000 ==> (#[trigger] pruned(entries, retention_days, now)[i]).at >= e.at,
{
    broadcast use vstd::seq_lib::group_to_multiset_ensures;

    let window = in_window(entries, retention_days, now);
    let sorted = order::descending(window);
    let pred = not_before::<D>(cutoff(now, retention_days));
    order::law_descending_is_sorted(window);
    if retention_days > 0 {
        sieve::lemma_filter_counts(entries, pred, e);
    }
    assert(sorted.to_multiset().count(e) == entries.to_multiset().count(e));
    assert(sorted.len() > 1000);
    lemma_front_counts(sorted, 1000, e);
    let rest = sorted.skip(1000);
    assert(rest.to_multiset().count(e) > 0);
    assert(rest.contains(e));
    let k = choose|k: int| 0 <= k < rest.len() && rest[k] == e;
    assert(sorted[1000 + k] == e);
    assert forall|i: int| 0 <= i < 1000 implies (#[trigger] pruned(
        entries,
        retention_days,
        now,
    )[i]).at >= e.at by {
        assert(sorted[i].key() >= sorted[1000 + k].key());
    }
}

/// The history holds no more than 1000 entries, newest first, and entries of one moment inside the
/// window keep their order while the cap has room.
pub proof fn law_one_moment_keeps_its_order<D>(
    entries: Seq<Entry<D>>,
    retention_days: u32,
    now: u64,
    at: u64,
)
    ensures
        pruned(entries, retention_days, now).len() <= 1000,
        entries.len() <= 1000 && (retention_days == 0 || at + retention_days * 86400 >= now)
            ==> pruned(entries, retention_days, now).filter(|e: Entry<D>| e.at == at)
            == entries.filter(|e: Entry<D>| e.at == at),
{
    let of_moment = |e: Entry<D>| e.at == at;
    let window = in_window(entries, retention_days, now);
    let pred = not_before::<D>(cutoff(now, retention_days));
    order::law_descending_is_sorted(window);
    order::law_descending_is_stable(window, at);
    assert(order::has_key::<Entry<D>>(at) =~= of_moment);
    if retention_days > 0 {
        lemma_filter_is_no_longer(entries, pred);
        if at + retention_days * 86400 >= now {
            lemma_filters_agree(entries, pred, of_moment);
        }
    }
}

proof fn lemma_filters_agree<D>(
    s: Seq<Entry<D>>,
    wide: spec_fn(Entry<D>) -> bool,
    narrow: spec_fn(Entry<D>) -> bool,
)
    requires
        forall|e: Entry<D>| #[trigger] narrow(e) ==> wide(e),
    ensures
        s.filter(wide).filter(narrow) == s.filter(narrow),
    decreases s.len(),
{
    reveal(Seq::filter);
    if s.len() > 0 {
        lemma_filters_agree(s.drop_last(), wide, narrow);
        let w = s.drop_last().filter(wide);
        if wide(s.last()) {
            assert(w.push(s.last()).drop_last() =~= w);
        }
    } else {
        assert(s.filter(wide) =~= s);
    }
}

/// Deleting a moment takes its entries and leaves every other, as often as it stood there.
pub proof fn law_deleting_leaves_the_rest<D>(entries: Seq<Entry<D>>, at: u64, e: Entry<D>)
    ensures
        entries.filter(not_at::<D>(at)).to_multiset().count(e) == (if e.at == at {
            0
        } else {
            entries.to_multiset().count(e)
        }),
{
    sieve::lemma_filter_counts(entries, not_at::<D>(at), e);
}

/// A history file is pruned as it is read, and no file is no history.
pub proof fn law_reading_prunes<D>(entries: Vec<Entry<D>>, retention_days: u32, now: u64)
    ensures
        loaded(Some(entries), retention_days, now) == pruned(entries@, retention_days, now),
        loaded(None::<Vec<Entry<D>>>, retention_days, now).len() == 0,
{
}

} // verus!
