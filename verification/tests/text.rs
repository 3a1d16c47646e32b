use whisper_lite::annotations::strip_annotations;
use whisper_lite::capitals::capitalize_sentences;
use whisper_lite::text::{clean, is_filler, is_hallucination};

#[test]
fn interleaved_brackets_do_not_eat_the_transcript() {
    // The `]` closes the `[` and takes what stands between; the `)` in there is text.
    assert_eq!(clean("(a [b) hello world]", false, true), "(a");
    // Same shape in multibyte text.
    assert_eq!(clean("([b)日本]", false, true), "");
}

#[test]
fn a_mismatched_closer_is_just_punctuation() {
    // A half-open interval is a perfectly normal thing to dictate, and the `]` must not be
    // treated as the end of an annotation.
    assert_eq!(
        clean("the range (1, 2] is open", false, true),
        "The range (1, 2] is open"
    );
}

#[test]
fn capitalises_each_sentence() {
    assert_eq!(
        clean("ship it. then benchmark it", false, true),
        "Ship it. Then benchmark it"
    );
    assert_eq!(clean("really? yes! fine", false, true), "Really? Yes! Fine");
}

#[test]
fn a_decimal_point_does_not_start_a_sentence() {
    // The digit after the point is not a sentence boundary, so "million" stays lowercase.
    assert_eq!(
        clean("it cost 3.5 million dollars", false, true),
        "It cost 3.5 million dollars"
    );
}

#[test]
fn capitalises_past_a_closing_quote() {
    assert_eq!(
        clean("he said \"no.\" then left", false, true),
        "He said \"no.\" Then left"
    );
}

#[test]
fn autocapitalize_can_be_turned_off() {
    // Off means genuinely untouched — not even the first letter.
    assert_eq!(
        clean("ship it. then benchmark", false, false),
        "ship it. then benchmark"
    );
}

#[test]
fn trims_and_collapses_whitespace() {
    assert_eq!(clean("  hello   there  ", false, true), "Hello there");
}

#[test]
fn strips_whisper_annotations() {
    assert_eq!(clean("[BLANK_AUDIO] hello", false, true), "Hello");
    assert_eq!(
        clean("hello (wind blowing) there", false, true),
        "Hello there"
    );
}

#[test]
fn removes_fillers_only_when_asked() {
    assert_eq!(clean("um hello uh there", true, true), "Hello there");
    assert_eq!(clean("um hello uh there", false, true), "Um hello uh there");
}

#[test]
fn removes_fillers_with_trailing_punctuation() {
    assert_eq!(clean("well, um, fine", true, true), "Well, fine");
}

#[test]
fn keeps_words_that_merely_contain_a_filler() {
    // "humming" contains "umm"; deleting real words is worse than leaving a filler in.
    assert_eq!(clean("humming along", true, true), "Humming along");
}

#[test]
fn keeps_like_and_so() {
    assert_eq!(
        clean("something like that", true, true),
        "Something like that"
    );
    assert_eq!(clean("so I said no", true, true), "So I said no");
}

#[test]
fn drops_whisper_silence_hallucinations() {
    assert_eq!(clean("Thank you.", false, true), "");
    assert_eq!(clean("Thanks for watching!", false, true), "");
    assert_eq!(clean("you", false, true), "");
    assert_eq!(clean("Bye!", false, true), "");
}

#[test]
fn drops_punctuation_only_output() {
    assert_eq!(clean(".", false, true), "");
    assert_eq!(clean(" ... ", false, true), "");
}

#[test]
fn keeps_thank_you_inside_a_real_sentence() {
    // Only a whole-output match counts — "thank you" is an ordinary thing to dictate.
    assert_eq!(
        clean("thank you for the update, I will look at it", false, true),
        "Thank you for the update, I will look at it"
    );
}

#[test]
fn unmatched_bracket_does_not_truncate_the_transcript() {
    // A stray opening paren is text, and so is everything after it.
    assert_eq!(
        clean("send the report (see notes", false, true),
        "Send the report (see notes"
    );
}

#[test]
fn empty_input_stays_empty() {
    assert_eq!(clean("", true, true), "");
    assert_eq!(clean("   [BLANK_AUDIO]  ", true, true), "");
}

#[test]
fn the_dotted_stock_phrase_is_dropped_too() {
    assert_eq!(clean("Subtitles by the Amara.org community", false, true), "");
    assert_eq!(clean("thank you for watching", false, false), "");
    assert_eq!(clean("Please subscribe!", true, true), "");
    assert_eq!(
        clean("subtitles by the amara.org community are good", false, false),
        "subtitles by the amara.org community are good"
    );
}

#[test]
fn every_filler_goes() {
    assert_eq!(clean("um uh erm uhh umm hmm mhm ok", true, false), "ok");
    assert_eq!(clean("UM... fine", true, false), "fine");
    assert!(is_filler("Um,"));
    assert!(!is_filler("umbrella"));
    assert!(!is_filler("like"));
}

#[test]
fn case_beyond_ascii_follows_unicode() {
    assert_eq!(clean("élan. über", false, true), "Élan. Über");
    assert_eq!(clean("ßtrange", false, true), "SStrange");
    assert_eq!(clean("日本。", false, true), "日本。");
    // A non-breaking space separates words too.
    assert_eq!(clean("one\u{a0}two", false, false), "one two");
    assert!(is_hallucination("THANK\u{a0}YOU"));
    assert!(!is_hallucination("ΤΗΑΝΚ"));
}

#[test]
fn stripping_twice_is_stripping_once() {
    for raw in ["(a [b) hello world]", "([b)日本]", "a (b (c) d) e", "[x](y)z", "no brackets"] {
        let once = strip_annotations(raw);
        assert_eq!(strip_annotations(&once), once);
    }
    assert_eq!(strip_annotations("a (b (c) d) e"), "a  e");
    assert_eq!(strip_annotations("(1, 2] and (x)"), "(1, 2] and ");
}

#[test]
fn capitals_touch_only_letters() {
    assert_eq!(capitalize_sentences("ship it… then stop. (and) rest"), "Ship it… then stop. (and) rest");
    assert_eq!(capitalize_sentences("wait… what. 'tis"), "Wait… what. 'Tis");
    let once = capitalize_sentences("one. two! three? 4 five");
    assert_eq!(once, "One. Two! Three? 4 five");
    assert_eq!(capitalize_sentences(&once), once);
}

#[test]
fn cleaning_twice_is_cleaning_once() {
    for raw in [
        "  ship   it. then (wind) stop ",
        "(a [b) hello world]",
        "um hello [um there)",
        "élan. über (x",
        "Thank you.",
        "the range (1, 2] is open",
        "",
    ] {
        for capitals in [true, false] {
            let once = clean(raw, false, capitals);
            assert_eq!(clean(&once, false, capitals), once, "{raw}");
        }
    }
    let once = clean("um ship uh it. um then", true, true);
    assert_eq!(once, "Ship it. Then");
    assert_eq!(clean(&once, false, true), once);
}

#[test]
fn dress_does_not_decide_what_is_dropped() {
    for same in ["thank you", "THANK YOU", "Thank... you!", "  thank \t you ", "T.h.a.n.k you", "thank  you?"] {
        assert!(is_hallucination(same), "{same}");
    }
    for other in ["thank yo", "THANK YOU ALL", "than-k y ou", "thankyou"] {
        assert!(!is_hallucination(other), "{other}");
    }
    for nothing in ["", "!?", " - ", "..."] {
        assert!(is_hallucination(nothing), "{nothing}");
    }
}

#[test]
fn a_closed_span_goes_wherever_it_stands() {
    assert_eq!(strip_annotations("a ( b [c] d"), strip_annotations("a ( b  d"));
    assert_eq!(strip_annotations("x ( y [z] ) w"), "x  w");
    assert_eq!(strip_annotations("(1, 2] (x) y"), "(1, 2]  y");
}

#[test]
fn a_capital_of_several_characters_is_steady() {
    assert_eq!(capitalize_sentences("ßa. ŉb"), "SSa. ʼNb");
    for raw in ["ßa. ŉb", "  ﬁrst.  ßo (x) ", "ǰ! ΐ?", "(1 ß"] {
        let once = clean(raw, false, true);
        assert_eq!(clean(&once, false, true), once, "{raw}");
    }
    assert_eq!(clean("  ﬁrst.  ßo (x) ", false, true), "FIrst. SSo");
}

#[test]
fn any_number_of_changes_of_dress() {
    let ways = [
        ["thank you", "tHank you", "tHank, you", "tHank,  you", " tHank,  you!", "THANK\t YOU"],
        ["café au lait", "CaFé au lait", "CaFé, au lait", "CaFé, au  lait", "-café au lait ", "café AU lait..."],
        ["日本 bye", "日本  bye", "日本\u{3000} Bye", "日本, bye", "(日本) bye", " 日本 BYE "],
        ["bye", "B-y-e", "bye\u{3000}", "\u{2003}BYE!", "'bye'", "b.y.e."],
    ];
    for way in ways {
        for text in way {
            assert_eq!(is_hallucination(text), is_hallucination(way[0]), "{text}");
        }
    }
    assert!(is_hallucination("bye\u{3000}") && !is_hallucination("日本 bye"));
}

#[test]
fn a_text_without_letters_is_dropped() {
    for nothing in ["♪ ♪", "… —", "\u{201c}!\u{201d}", "\u{3000}。"] {
        assert!(is_hallucination(nothing), "{nothing}");
    }
    assert!(!is_hallucination("♪ la ♪"));
}
