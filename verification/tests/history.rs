use whisper_lite::history::{
    append_at, delete, load, load_at, now, prune, prune_at, seconds_or_zero, Entry, MAX_ENTRIES,
};

fn entry(at: u64, text: &str) -> Entry<f32> {
    Entry { at, text: text.into(), duration: 1.0 }
}

#[test]
fn prune_drops_entries_past_the_window() {
    let old = now() - 40 * 86_400;
    let recent = now() - 86_400;
    let kept = prune(vec![entry(old, "old"), entry(recent, "recent")], 30);
    assert_eq!(kept.len(), 1);
    assert_eq!(kept[0].text, "recent");
}

#[test]
fn zero_retention_keeps_everything() {
    let ancient = 1_000;
    let kept = prune(vec![entry(ancient, "ancient")], 0);
    assert_eq!(kept.len(), 1);
}

#[test]
fn prune_sorts_newest_first() {
    let kept = prune(vec![entry(100, "older"), entry(200, "newer")], 0);
    assert_eq!(kept[0].text, "newer");
}

#[test]
fn prune_enforces_the_count_cap() {
    let many: Vec<Entry<f32>> = (0..MAX_ENTRIES as u64 + 50).map(|i| entry(i, "x")).collect();
    assert_eq!(prune(many, 0).len(), MAX_ENTRIES);
}

#[test]
fn the_cap_drops_the_oldest() {
    let many: Vec<Entry<f32>> = (0..1_050u64).map(|i| entry(i, "x")).collect();
    let kept = prune_at(many, 0, 5_000);
    assert_eq!(kept[0].at, 1_049);
    assert_eq!(kept[999].at, 50);
    let again = prune_at(kept, 0, 5_000);
    assert_eq!(again.len(), 1_000);
    assert_eq!(again[999].at, 50);
}

#[test]
fn the_edge_of_the_window_is_kept() {
    let kept = prune_at(vec![entry(1_000, "edge"), entry(999, "past")], 1, 87_400);
    assert_eq!(kept.len(), 1);
    assert_eq!(kept[0].text, "edge");
    // A window that reaches before the epoch keeps everything.
    assert_eq!(prune_at(vec![entry(0, "first")], u32::MAX, 10).len(), 1);
}

#[test]
fn entries_of_one_moment_keep_their_order() {
    let kept = prune_at(vec![entry(5, "a"), entry(7, "b"), entry(5, "c")], 0, 10);
    let texts: Vec<&str> = kept.iter().map(|e| e.text.as_str()).collect();
    assert_eq!(texts, vec!["b", "a", "c"]);
}

#[test]
fn a_new_entry_comes_first() {
    let kept = append_at(vec![entry(5, "old")], "new", 2.5f32, 0, 9);
    assert_eq!(kept.len(), 2);
    assert_eq!((kept[0].at, kept[0].text.as_str(), kept[0].duration), (9, "new", 2.5));
}

#[test]
fn deleting_takes_one_moment() {
    let left = delete(vec![entry(5, "a"), entry(7, "b"), entry(5, "c")], 5);
    assert_eq!(left.len(), 1);
    assert_eq!(left[0].text, "b");
    assert_eq!(delete(left, 6).len(), 1);
}

#[test]
fn a_clock_before_the_epoch_reads_zero() {
    assert_eq!(seconds_or_zero(None), 0);
    assert_eq!(seconds_or_zero(Some(12)), 12);
    // 2020 is behind us.
    assert!(now() > 1_577_836_800);
}

#[test]
fn loading_prunes() {
    let file = Some(vec![entry(999, "past"), entry(1_000, "edge"), entry(2_000, "new")]);
    let texts: Vec<String> = load_at(file, 1, 87_400).into_iter().map(|e| e.text).collect();
    assert_eq!(texts, vec!["new", "edge"]);
    let many: Vec<Entry<f32>> = (0..1_050u64).map(|i| entry(i, "x")).collect();
    assert_eq!(load(Some(many), 0).len(), MAX_ENTRIES);
    assert!(load(None::<Vec<Entry<f32>>>, 30).is_empty());
}
