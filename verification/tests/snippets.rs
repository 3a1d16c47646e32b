use whisper_lite::snippets::{find_ignoring_case, is_boundary};
use whisper_lite::text::expand_snippets;

fn snips() -> Vec<(String, String)> {
    vec![
        ("sign off".into(), "Best, Byurhan".into()),
        ("cal link".into(), "cal.com/byurhan".into()),
    ]
}

#[test]
fn expands_a_trigger() {
    assert_eq!(expand_snippets("sign off", &snips()), "Best, Byurhan");
}

#[test]
fn is_case_insensitive() {
    assert_eq!(expand_snippets("Sign Off", &snips()), "Best, Byurhan");
}

#[test]
fn expands_within_a_sentence() {
    assert_eq!(
        expand_snippets("here is my cal link ok", &snips()),
        "here is my cal.com/byurhan ok"
    );
}

#[test]
fn ignores_partial_word_matches() {
    // "cal link" must not fire inside "physical inks".
    let input = "physical inks are fine";
    assert_eq!(expand_snippets(input, &snips()), input);
}

#[test]
fn empty_snippets_are_a_no_op() {
    assert_eq!(expand_snippets("hello", &[]), "hello");
}

#[test]
fn self_referential_replacement_terminates() {
    // The replacement contains the trigger, and the "." behind it is a word boundary: it must
    // not match again.
    let s = vec![("cal".to_string(), "cal.com".to_string())];
    assert_eq!(expand_snippets("my cal here", &s), "my cal.com here");
}

#[test]
fn replacement_equal_to_trigger_terminates() {
    let s = vec![("x".to_string(), "x".to_string())];
    assert_eq!(expand_snippets("x and x", &s), "x and x");
}

#[test]
fn handles_multibyte_text_before_a_trigger() {
    // Turkish 'İ' is 2 bytes but lowercases to 3, so offsets in a lowercased copy do not line up.
    let s = vec![("cal link".to_string(), "cal.com".to_string())];
    assert_eq!(
        expand_snippets("İstanbul cal link tomorrow", &s),
        "İstanbul cal.com tomorrow"
    );
}

#[test]
fn keeps_scanning_after_a_partial_word_match() {
    // The first "cal link" is inside a word; the second is not and must still be replaced.
    let s = vec![("cal link".to_string(), "LINK".to_string())];
    assert_eq!(
        expand_snippets("physical inks then cal link", &s),
        "physical inks then LINK"
    );
}

#[test]
fn replaces_every_occurrence() {
    let s = vec![("sign off".to_string(), "Best".to_string())];
    assert_eq!(
        expand_snippets("sign off and sign off", &s),
        "Best and Best"
    );
}

#[test]
fn blank_triggers_are_skipped() {
    let s = vec![("   ".to_string(), "x".to_string())];
    assert_eq!(expand_snippets("hello", &s), "hello");
}

#[test]
fn longer_triggers_win_over_shorter_ones() {
    let s = vec![
        ("cal".to_string(), "calendar".to_string()),
        ("cal link".to_string(), "LINK".to_string()),
    ];
    assert_eq!(expand_snippets("my cal link and my cal", &s), "my LINK and my calendar");
}

#[test]
fn a_trigger_is_trimmed_before_it_is_sought() {
    let s = vec![("  brb  ".to_string(), "be right back".to_string())];
    assert_eq!(expand_snippets("ok BRB now", &s), "ok be right back now");
}

#[test]
fn an_empty_text_stays_empty() {
    assert_eq!(expand_snippets("", &snips()), "");
}

#[test]
fn folding_beyond_ascii_matches() {
    let s = vec![("ÇAY".to_string(), "tea".to_string())];
    assert_eq!(expand_snippets("bir çay lütfen", &s), "bir tea lütfen");
    let dotted = vec![("İ".to_string(), "dot".to_string())];
    assert_eq!(expand_snippets("a İ b", &dotted), "a dot b");
}

#[test]
fn a_match_is_found_by_its_characters() {
    let hay: Vec<char> = "xx Cal link".chars().collect();
    let needle: Vec<char> = "cal LINK".chars().collect();
    assert_eq!(find_ignoring_case(&hay, &needle, 0), Some((3, 11)));
    assert_eq!(find_ignoring_case(&hay, &needle, 4), None);
    assert!(is_boundary(&hay, 3, true));
    assert!(is_boundary(&hay, 11, false));
    assert!(!is_boundary(&hay, 4, true));
    assert!(!is_boundary(&hay, 4, false));
}

#[test]
fn a_whole_phrase_may_overlap_a_part_of_a_word() {
    let s = vec![("no no".to_string(), "NEVER".to_string())];
    assert_eq!(expand_snippets("piano no no", &s), "piano NEVER");
    assert_eq!(expand_snippets("piano no no no no", &s), "piano NEVER NEVER");
    assert_eq!(expand_snippets("no no no", &s), "NEVER no");
    assert_eq!(expand_snippets("piano no", &s), "piano no");
}

#[test]
fn a_blank_trigger_changes_nothing_among_others() {
    let mut s = snips();
    s.insert(1, (" \t ".to_string(), "x".to_string()));
    let text = "here is my cal link, sign off";
    assert_eq!(expand_snippets(text, &s), expand_snippets(text, &snips()));
    assert_eq!(expand_snippets(text, &s), "here is my cal.com/byurhan, Best, Byurhan");
}

#[test]
fn the_order_of_the_list_does_not_matter() {
    let s = vec![
        ("cal".to_string(), "calendar".to_string()),
        ("cal link".to_string(), "cal.com/byurhan".to_string()),
        ("çay".to_string(), "tea".to_string()),
        (" ".to_string(), "x".to_string()),
        ("link".to_string() + "s", "cal links".to_string()),
    ];
    let text = "my cal link, cal, ÇAY and links";
    let once = expand_snippets(text, &s);
    assert_eq!(once, "my calendar.com/byurhan, calendar, tea and calendar links");
    for i in 0..s.len() {
        for j in 0..s.len() {
            let mut other = s.clone();
            other.swap(i, j);
            other.rotate_left(i);
            assert_eq!(expand_snippets(text, &other), once);
        }
    }
    // Two triggers of one length go by the list.
    let a = ("one".to_string(), "two".to_string());
    let b = ("two".to_string(), "six".to_string());
    assert_eq!(expand_snippets("one", &[a.clone(), b.clone()]), "six");
    assert_eq!(expand_snippets("one", &[b, a]), "two");
}
