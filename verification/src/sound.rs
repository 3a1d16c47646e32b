//! Start and stop cues.
//!
//! The system sounds already on the machine are used: they are tuned to sit under other audio
//! without being startling.

use vstd::prelude::*;

use crate::settings;

verus! {

/// What a pair of texts holds.
pub open spec fn pairs(v: Seq<(String, String)>) -> Seq<(Seq<char>, Seq<char>)> {
    Seq::new(v.len(), |i: int| (v[i].0@, v[i].1@))
}

/// Sounds on offer with their labels, shortest first.
pub open spec fn offered() -> Seq<(Seq<char>, Seq<char>)> {
    seq![
        (""@, "None"@),
        ("Tink"@, "Tink — short, crisp"@),
        ("Morse"@, "Morse — short, soft"@),
        ("Purr"@, "Purr — soft, low"@),
        ("Bottle"@, "Bottle — hollow"@),
        ("Frog"@, "Frog — playful"@),
        ("Blow"@, "Blow — airy"@),
        ("Hero"@, "Hero — bright"@),
        ("Glass"@, "Glass — long, bright"@),
        ("Pop"@, "Pop — long"@),
        ("Submarine"@, "Submarine — long, deep"@),
    ]
}

/// Sounds on offer with their labels, shortest first.
///
/// Duration matters more than timbre for a cue that fires on every dictation: anything past
/// about a second finishes after the user has already moved on.
pub fn choices() -> (v: Vec<(String, String)>)
    ensures
        pairs(v@) == offered(),
{
    let v: Vec<(String, String)> = vec![
        ("".to_owned(), "None".to_owned()),
        ("Tink".to_owned(), "Tink — short, crisp".to_owned()),
        ("Morse".to_owned(), "Morse — short, soft".to_owned()),
        ("Purr".to_owned(), "Purr — soft, low".to_owned()),
        ("Bottle".to_owned(), "Bottle — hollow".to_owned()),
        ("Frog".to_owned(), "Frog — playful".to_owned()),
        ("Blow".to_owned(), "Blow — airy".to_owned()),
        ("Hero".to_owned(), "Hero — bright".to_owned()),
        ("Glass".to_owned(), "Glass — long, bright".to_owned()),
        ("Pop".to_owned(), "Pop — long".to_owned()),
        ("Submarine".to_owned(), "Submarine — long, deep".to_owned()),
    ];
    assert(pairs(v@) =~= offered());
    v
}

/// The file of a system sound.
pub open spec fn sound_file(name: Seq<char>) -> Seq<char> {
    "/System/Library/Sounds/"@ + name + ".aiff"@
}

/// The file to play for the sound `name`; silence has none.
pub fn play(name: &str) -> (file: Option<String>)
    ensures
        name@.len() == 0 ==> file is None,
        name@.len() > 0 ==> (file matches Some(f) && f@ == sound_file(name@)),
{
    if name.is_empty() {
        return None;
    }
    let mut file: String = "/System/Library/Sounds/".to_owned();
    file.append(name);
    file.append(".aiff");
    Some(file)
}

/// Both default cues are among the sounds on offer.
pub proof fn law_the_default_cues_are_offered()
    ensures
        exists|i: int| 0 <= i < offered().len() && (#[trigger] offered()[i]).0
            == settings::defaults().sound_start,
        exists|i: int| 0 <= i < offered().len() && (#[trigger] offered()[i]).0
            == settings::defaults().sound_stop,
{
    assert(offered()[1].0 == "Tink"@);
    assert(offered()[3].0 == "Purr"@);
}

/// The sound of a name is the system's own file, and each on offer is labelled by its name.
pub proof fn law_each_sound_is_labelled_by_its_name(name: Seq<char>, i: int)
    ensures
        sound_file(name) == "/System/Library/Sounds/"@ + name + ".aiff"@,
        offered().len() == 11,
        offered()[0].0.len() == 0 && offered()[0].1 == "None"@,
        0 < i < 11 ==> offered()[i].0.len() > 0 && offered()[i].0.len() < offered()[i].1.len()
            && offered()[i].1.take(offered()[i].0.len() as int) == offered()[i].0,
{
    reveal_strlit("");
    reveal_strlit("Tink");
    reveal_strlit("Morse");
    reveal_strlit("Purr");
    reveal_strlit("Bottle");
    reveal_strlit("Frog");
    reveal_strlit("Blow");
    reveal_strlit("Hero");
    reveal_strlit("Glass");
    reveal_strlit("Pop");
    reveal_strlit("Submarine");
    reveal_strlit("Tink — short, crisp");
    reveal_strlit("Morse — short, soft");
    reveal_strlit("Purr — soft, low");
    reveal_strlit("Bottle — hollow");
    reveal_strlit("Frog — playful");
    reveal_strlit("Blow — airy");
    reveal_strlit("Hero — bright");
    reveal_strlit("Glass — long, bright");
    reveal_strlit("Pop — long");
    reveal_strlit("Submarine — long, deep");
    let all = offered();
    assert(all[1].1.take(4) =~= all[1].0);
    assert(all[2].1.take(5) =~= all[2].0);
    assert(all[3].1.take(4) =~= all[3].0);
    assert(all[4].1.take(6) =~= all[4].0);
    assert(all[5].1.take(4) =~= all[5].0);
    assert(all[6].1.take(4) =~= all[6].0);
    assert(all[7].1.take(4) =~= all[7].0);
    assert(all[8].1.take(5) =~= all[8].0);
    assert(all[9].1.take(3) =~= all[9].0);
    assert(all[10].1.take(9) =~= all[10].0);
}

/// A list of pairs is each of them, in its place.
pub proof fn law_each_pair_is_in_its_place(v: Seq<(String, String)>, i: int)
    ensures
        pairs(v).len() == v.len(),
        0 <= i < v.len() ==> pairs(v)[i] == (v[i].0@, v[i].1@),
{
}

} // verus!
