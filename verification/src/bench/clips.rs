//! The test clips.
//!
//! Synthetic speech is fair for measuring time, and too clean to measure accuracy: error rates
//! on it are optimistic, and only good for telling a model that works from one that does not.

use vstd::prelude::*;

use crate::paths;
use crate::paths::join;
use crate::words;

verus! {

/// A clip and what is said in it.
#[derive(Debug, Clone, Copy)]
pub struct Clip {
    pub name: &'static str,
    pub text: &'static str,
}

/// The clips. `mid` is as long as the longest segment a user would wait for, so it is the one
/// that decides.
pub open spec fn all_clips() -> Seq<Clip> {
    seq![
        Clip {
            name: "short",
            text: "let's ship the parakeet engine first",
        },
        Clip {
            name: "mid",
            text: "let's ship the parakeet engine first and benchmark it properly on the laptop \
                 before we commit to anything",
        },
        Clip {
            name: "long",
            text: "the whole point of this spike is to find out whether the decode step is fast \
                 enough to hide behind a natural pause, because if it is not then the entire \
                 latency argument falls apart and we should go back to whisper instead",
        },
        Clip {
            name: "xlong",
            text: "the whole point of this spike is to find out whether the decode step is fast \
                 enough to hide behind a natural pause, because if it is not then the entire \
                 latency argument falls apart and we should go back to whisper instead. a \
                 thirty second clip is deliberately longer than the six second force cut, so \
                 it tells us what would happen if the voice activity detector never found a \
                 gap to split on, which is the failure mode the force cut exists to prevent \
                 in the first place",
        },
    ]
}

/// The clips.
pub fn clips() -> (v: Vec<Clip>)
    ensures
        v@ == all_clips(),
{
    let v: Vec<Clip> = vec![
        Clip {
            name: "short",
            text: "let's ship the parakeet engine first",
        },
        Clip {
            name: "mid",
            text: "let's ship the parakeet engine first and benchmark it properly on the laptop \
                 before we commit to anything",
        },
        Clip {
            name: "long",
            text: "the whole point of this spike is to find out whether the decode step is fast \
                 enough to hide behind a natural pause, because if it is not then the entire \
                 latency argument falls apart and we should go back to whisper instead",
        },
        Clip {
            name: "xlong",
            text: "the whole point of this spike is to find out whether the decode step is fast \
                 enough to hide behind a natural pause, because if it is not then the entire \
                 latency argument falls apart and we should go back to whisper instead. a \
                 thirty second clip is deliberately longer than the six second force cut, so \
                 it tells us what would happen if the voice activity detector never found a \
                 gap to split on, which is the failure mode the force cut exists to prevent \
                 in the first place",
        },
    ];
    assert(v@ =~= all_clips());
    v
}

/// Where the clips are kept.
pub fn audio_dir() -> (dir: String)
    ensures
        dir@ == "audio"@,
{
    "audio".to_owned()
}

/// The file of a clip.
pub open spec fn clip_file(dir: Seq<char>, name: Seq<char>) -> Seq<char> {
    paths::below(dir, name + ".wav"@)
}

/// The file of the clip `name` in `dir`.
pub fn clip_path(dir: &str, name: &str) -> (path: String)
    ensures
        path@ == clip_file(dir@, name@),
{
    let mut file: String = name.to_owned();
    file.append(".wav");
    join(dir, file.as_str())
}

/// The file that a clip is spoken into before it is converted.
pub open spec fn spoken_file(dir: Seq<char>, name: Seq<char>) -> Seq<char> {
    paths::below(dir, name + ".aiff"@)
}

/// What `say` is called with. 175 words a minute is close to natural dictation pace.
pub open spec fn say_arguments(aiff: Seq<char>, text: Seq<char>) -> Seq<Seq<char>> {
    seq!["-r"@, "175"@, "-o"@, aiff, text]
}

/// What `afconvert` is called with: 16kHz mono signed 16-bit, which every model here expects.
pub open spec fn convert_arguments(aiff: Seq<char>, wav: Seq<char>) -> Seq<Seq<char>> {
    seq![aiff, wav, "-f"@, "WAVE"@, "-d"@, "LEI16@16000"@, "-c"@, "1"@]
}

/// What a clip needs.
#[derive(Debug)]
pub enum ClipStep {
    /// Nothing: the clip is there, and this line says so.
    Present { line: String },
    /// To be spoken into `aiff`, which is converted to `wav` and then removed: the arguments of
    /// `say`, and those of `afconvert`.
    Generate { aiff: String, wav: String, say: Vec<String>, convert: Vec<String> },
}

/// What `clip` needs in `dir`; `seconds` is how long its file lasts, as it is shown, where there
/// is one.
pub fn ensure(dir: &str, clip: Clip, seconds: Option<&str>) -> (c: ClipStep)
    ensures
        match seconds {
            Some(t) => c matches ClipStep::Present { line } && line@ == "  ✓ "@ + clip.name@
                + ".wav ("@ + t@ + "s)"@,
            None => c matches ClipStep::Generate { aiff, wav, say, convert } && aiff@
                == spoken_file(dir@, clip.name@) && wav@ == clip_file(dir@, clip.name@)
                && words::strings(say@) == say_arguments(aiff@, clip.text@) && words::strings(
                convert@,
            ) == convert_arguments(aiff@, wav@),
        },
{
    if let Some(t) = seconds {
        let mut line: String = "  ✓ ".to_owned();
        line.append(clip.name);
        line.append(".wav (");
        line.append(t);
        line.append("s)");
        return ClipStep::Present { line };
    }
    let mut file: String = clip.name.to_owned();
    file.append(".aiff");
    let aiff: String = join(dir, file.as_str());
    let wav: String = clip_path(dir, clip.name);
    let say: Vec<String> = vec![
        "-r".to_owned(),
        "175".to_owned(),
        "-o".to_owned(),
        aiff.clone(),
        clip.text.to_owned(),
    ];
    let convert: Vec<String> = vec![
        aiff.clone(),
        wav.clone(),
        "-f".to_owned(),
        "WAVE".to_owned(),
        "-d".to_owned(),
        "LEI16@16000".to_owned(),
        "-c".to_owned(),
        "1".to_owned(),
    ];
    assert(words::strings(say@) =~= say_arguments(aiff@, clip.text@));
    assert(words::strings(convert@) =~= convert_arguments(aiff@, wav@));
    ClipStep::Generate { aiff, wav, say, convert }
}

/// The line for a clip that was just generated.
pub fn generated_line(clip: Clip, seconds: &str) -> (line: String)
    ensures
        line@ == "  ✓ "@ + clip.name@ + ".wav ("@ + seconds@ + "s, generated)"@,
{
    let mut line: String = "  ✓ ".to_owned();
    line.append(clip.name);
    line.append(".wav (");
    line.append(seconds);
    line.append("s, generated)");
    line
}

/// The error when `program` fails to do its part of a clip.
pub fn failure(program: &str, clip: Clip) -> (error: String)
    ensures
        error@ == "`"@ + program@ + "` failed for clip "@ + clip.name@,
{
    let mut error: String = "`".to_owned();
    error.append(program);
    error.append("` failed for clip ");
    error.append(clip.name);
    error
}

/// No two clips share a name, so none overwrites another.
pub proof fn law_clip_names_are_unique(i: int, j: int)
    requires
        0 <= i < j < all_clips().len(),
    ensures
        all_clips()[i].name@ != all_clips()[j].name@,
{
    reveal_strlit("short");
    reveal_strlit("mid");
    reveal_strlit("long");
    reveal_strlit("xlong");
    assert("short"@.len() == 5 && "mid"@.len() == 3 && "long"@.len() == 4 && "xlong"@.len() == 5);
    assert("short"@[0] == 's' && "xlong"@[0] == 'x');
}

/// Where the files of a clip stand, and what the two programs that make them are called with.
pub proof fn law_where_a_clip_stands(dir: Seq<char>, name: Seq<char>, text: Seq<char>)
    requires
        dir.len() > 0,
        dir.last() != '/',
        name.len() > 0,
        name[0] != '/',
    ensures
        clip_file(dir, name) == dir + seq!['/'] + name + seq!['.', 'w', 'a', 'v'],
        spoken_file(dir, name) == dir + seq!['/'] + name + seq!['.', 'a', 'i', 'f', 'f'],
        say_arguments(name, text) == seq!["-r"@, "175"@, "-o"@, name, text],
        convert_arguments(dir, name) == seq![
            dir,
            name,
            "-f"@,
            "WAVE"@,
            "-d"@,
            "LEI16@16000"@,
            "-c"@,
            "1"@,
        ],
{
    reveal_strlit(".wav");
    reveal_strlit(".aiff");
    assert(clip_file(dir, name) =~= dir + seq!['/'] + name + seq!['.', 'w', 'a', 'v']);
    assert(spoken_file(dir, name) =~= dir + seq!['/'] + name + seq!['.', 'a', 'i', 'f', 'f']);
}

/// Four clips, from short to very long.
pub proof fn law_which_clips_there_are()
    ensures
        all_clips().len() == 4,
        all_clips()[0].name@ == "short"@ && all_clips()[1].name@ == "mid"@,
        all_clips()[2].name@ == "long"@ && all_clips()[3].name@ == "xlong"@,
        all_clips()[0].text@ == "let's ship the parakeet engine first"@,
{
}

} // verus!
