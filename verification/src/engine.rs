//! Transcription: which model is loaded, what the decoder is asked, and what is made of its
//! answer.

use vstd::prelude::*;

use crate::audio::TARGET_RATE;
use crate::chars;
use crate::chars::{chars_of, same_str, string_of};
use crate::models;
use crate::models::{models_dir, path_for};
use crate::paths;
use crate::paths::join;
use crate::settings;
use crate::words;
use crate::words::trim;

verus! {

/// How many characters of vocabulary the decoder is given at most: the prompt competes with the
/// audio for the model's limited context.
pub const PROMPT_CHARS: usize = 800;

/// Threads the decoder runs on.
pub const THREADS: i32 = 4;

/// A loaded model.
#[derive(Debug)]
pub struct Engine {
    model_id: String,
}

/// The answer when a model's file is missing.
pub open spec fn not_downloaded(model_id: Seq<char>, path: Seq<char>) -> Seq<char> {
    "model '"@ + model_id + "' is not downloaded.\n  Expected at "@ + path
}

/// Whether as many samples can hold any speech: a third of a second of them, at the rate of the
/// model.
pub open spec fn long_enough(samples: nat) -> bool {
    samples >= TARGET_RATE as int / 3
}

impl Engine {
    /// The id of the model.
    pub closed spec fn id(&self) -> Seq<char> {
        self.model_id@
    }

    /// Loads the model `model_id` from `model_path`; `exists` is whether that file is there.
    pub fn load(model_id: &str, model_path: &str, exists: bool) -> (r: Result<Engine, String>)
        ensures
            exists ==> (r matches Ok(e) && e.id() == model_id@),
            !exists ==> (r matches Err(e) && e@ == not_downloaded(model_id@, model_path@)),
    {
        if !exists {
            let mut e: String = "model '".to_owned();
            e.append(model_id);
            e.append("' is not downloaded.\n  Expected at ");
            e.append(model_path);
            return Err(e);
        }
        Ok(Engine { model_id: model_id.to_owned() })
    }

    /// The id of the model.
    pub fn model_id(&self) -> (id: &str)
        ensures
            id@ == self.id(),
    {
        self.model_id.as_str()
    }

    /// What the decoder is asked for an utterance of `samples` samples, or `None` where it is too
    /// short to hold any speech: the transcript is then empty.
    ///
    /// Below a third of a second the decoder tends to hallucinate a phrase into the silence.
    pub fn transcribe(
        &self,
        samples: usize,
        language: &str,
        accurate: bool,
        vocabulary: &str,
    ) -> (r: Option<Request>)
        ensures
            samples < TARGET_RATE as int / 3 ==> r is None,
            samples >= TARGET_RATE as int / 3 ==> (r matches Some(q) && q.asks(
                language@,
                accurate,
                vocabulary@,
            )),
            r is Some <==> long_enough(samples as nat),
    {
        if samples < (TARGET_RATE as usize) / 3 {
            return None;
        }
        let strategy: Strategy = if accurate {
            Strategy::Beam { size: 5 }
        } else {
            Strategy::Greedy { best_of: 1 }
        };
        let spoken: Option<String> = if same_str(language, "auto") {
            None
        } else {
            Some(language.to_owned())
        };
        let mut terms: Vec<char> = trim(chars_of(vocabulary).as_slice());
        let prompt: Option<String> = if terms.len() == 0 {
            None
        } else {
            terms.truncate(PROMPT_CHARS);
            assert(terms@ == first_chars(words::trimmed(vocabulary@), PROMPT_CHARS as int));
            Some(string_of(terms.as_slice()))
        };
        Some(
            Request {
                strategy,
                language: spoken,
                prompt,
                threads: THREADS,
                translate: false,
                suppress_blank: true,
                suppress_non_speech: true,
                keep_context: false,
            },
        )
    }
}

/// How the decoder searches.
#[derive(Debug, Clone, Copy, PartialEq, Eq, Structural)]
pub enum Strategy {
    /// Better on long or accented speech, at up to twice the time.
    Beam { size: i32 },
    Greedy { best_of: i32 },
}

/// What the decoder is asked.
#[derive(Debug)]
pub struct Request {
    pub strategy: Strategy,
    /// `None` lets the model detect the language.
    pub language: Option<String>,
    /// Words that condition spelling and casing.
    pub prompt: Option<String>,
    pub threads: i32,
    /// Whether the text is to come out in English.
    pub translate: bool,
    /// The decoder always wants to emit text: these two stop it narrating the audio.
    pub suppress_blank: bool,
    pub suppress_non_speech: bool,
    /// Whether a dictation is conditioned on the one before.
    pub keep_context: bool,
}

/// At most the first `n` characters.
pub open spec fn first_chars(s: Seq<char>, n: int) -> Seq<char> {
    if s.len() > n {
        s.take(n)
    } else {
        s
    }
}

impl Request {
    /// The request carries these settings: the search they call for, the language unless it is
    /// to be detected, and the vocabulary without its outer white space, cut to the cap, unless
    /// it is blank. Nothing is translated, what is no speech is suppressed, and no dictation is
    /// conditioned on the one before.
    pub open spec fn asks(self, language: Seq<char>, accurate: bool, vocabulary: Seq<char>) -> bool {
        &&& self.threads == THREADS
        &&& !self.translate
        &&& self.suppress_blank
        &&& self.suppress_non_speech
        &&& !self.keep_context
        &&& self.strategy == if accurate {
            Strategy::Beam { size: 5 }
        } else {
            Strategy::Greedy { best_of: 1 }
        }
        &&& if language == "auto"@ {
            self.language is None
        } else {
            self.language matches Some(l) && l@ == language
        }
        &&& if words::trimmed(vocabulary).len() == 0 {
            self.prompt is None
        } else {
            self.prompt matches Some(p) && p@ == first_chars(
                words::trimmed(vocabulary),
                PROMPT_CHARS as int,
            )
        }
    }
}

/// The segments that could be read, one after another.
pub open spec fn heard(segments: Seq<Option<String>>) -> Seq<char>
    decreases segments.len(),
{
    if segments.len() == 0 {
        seq![]
    } else {
        heard(segments.drop_last()) + (match segments.last() {
            Some(s) => s@,
            None => seq![],
        })
    }
}

/// The transcript that the decoder's segments make; a segment that could not be read is `None`.
pub fn transcript(segments: &[Option<String>]) -> (text: String)
    ensures
        text@ == heard(segments@),
{
    let mut text: String = String::new();
    let mut i: usize = 0;
    while i < segments.len()
        invariant
            i <= segments@.len(),
            text@ == heard(segments@.take(i as int)),
        decreases segments@.len() - i,
    {
        assert(segments@.take(i + 1).drop_last() == segments@.take(i as int));
        match &segments[i] {
            Some(s) => {
                text.append(s.as_str());
            },
            None => {},
        }
        i += 1;
    }
    assert(segments@.take(i as int) == segments@);
    text
}

/// Where a model is loaded from: the override where one is set, else the model's own file, and
/// for an unknown id the file of Base.
pub open spec fn source(home: Seq<char>, id: Seq<char>, over: Option<Seq<char>>) -> Seq<char> {
    match over {
        Some(p) => p,
        None => match models::place(home, id) {
            Some(p) => p,
            None => paths::below(models::shelf(home), "ggml-base.bin"@),
        },
    }
}

/// Path for a model id, honouring an override for development.
pub fn model_path(home: &str, model_id: &str, over: Option<&str>) -> (path: String)
    ensures
        path@ == source(
            home@,
            model_id@,
            match over {
                Some(p) => Some(p@),
                None => None,
            },
        ),
{
    match over {
        Some(p) => p.to_owned(),
        None => match path_for(home, model_id) {
            Some(p) => p,
            None => join(models_dir(home).as_str(), "ggml-base.bin"),
        },
    }
}

/// Whether the wanted model still has to be loaded: nothing is loaded, or another model is.
pub fn needs_load(loaded: Option<&Engine>, wanted: &str) -> (b: bool)
    ensures
        b == (match loaded {
            Some(e) => e.id() != wanted@,
            None => true,
        }),
{
    match loaded {
        Some(e) => !same_str(e.model_id(), wanted),
        None => true,
    }
}

/// An override wins over everything else.
pub proof fn law_an_override_always_wins(home: Seq<char>, id: Seq<char>, over: Seq<char>)
    ensures
        source(home, id, Some(over)) == over,
{
}

/// A vocabulary is never given whole beyond the cap, and is given whole up to it.
pub proof fn law_the_prompt_is_capped(r: Request, language: Seq<char>, accurate: bool, vocabulary: Seq<char>)
    requires
        r.asks(language, accurate, vocabulary),
    ensures
        r.prompt matches Some(p) ==> p@.len() <= PROMPT_CHARS && p@.len() > 0 && (
        words::trimmed(vocabulary).len() <= PROMPT_CHARS ==> p@ == words::trimmed(vocabulary)),
{
}

/// Nothing that was heard is lost, and nothing is added: the transcript of some segments and some
/// more is that of the first and then that of the others, a segment that was read is its text, and
/// one that could not be read is nothing.
pub proof fn law_every_segment_is_heard(a: Seq<Option<String>>, b: Seq<Option<String>>, s: String)
    ensures
        heard(a + b) == heard(a) + heard(b),
        heard(seq![Some(s)]) == s@,
        heard(seq![None::<String>]) == Seq::<char>::empty(),
        heard(Seq::<Option<String>>::empty()) == Seq::<char>::empty(),
    decreases b.len(),
{
    let none = Seq::<Option<String>>::empty();
    assert(heard(none) =~= Seq::<char>::empty());
    assert(seq![Some(s)].drop_last() =~= none);
    assert(seq![None::<String>].drop_last() =~= none);
    assert(heard(seq![Some(s)]) =~= s@);
    assert(heard(seq![None::<String>]) =~= Seq::<char>::empty());
    if b.len() == 0 {
        assert(a + b =~= a);
        assert(heard(a) + heard(b) =~= heard(a));
    } else {
        law_every_segment_is_heard(a, b.drop_last(), s);
        assert((a + b).drop_last() =~= a + b.drop_last());
        assert((a + b).last() == b.last());
        assert(heard(a + b) =~= heard(a) + heard(b));
    }
}

/// Each segment that was read stands in the transcript, behind all that was heard before it.
pub proof fn law_each_segment_stands_in_the_transcript(segments: Seq<Option<String>>, i: int)
    requires
        0 <= i < segments.len(),
    ensures
        segments[i] matches Some(s) ==> {
            let at = heard(segments.take(i)).len();
            &&& at + s@.len() <= heard(segments).len()
            &&& heard(segments).subrange(at as int, (at + s@.len()) as int) == s@
        },
{
    if let Some(s) = segments[i] {
        let front = segments.take(i);
        let one = seq![segments[i]];
        let back = segments.skip(i + 1);
        assert(segments =~= front + one + back);
        law_every_segment_is_heard(front, one, s);
        law_every_segment_is_heard(front + one, back, s);
        let at = heard(front).len() as int;
        assert(heard(segments).subrange(at, at + s@.len()) =~= s@);
    }
}

/// What the decoder is asked of every recording: four threads, the language unless it is to be
/// detected, a beam of five or the one best, no translation, nothing but speech, and nothing of the
/// dictation before. The prompt begins the vocabulary without its outer white space, and is all of
/// it up to 800 characters.
pub proof fn law_what_the_decoder_is_asked(
    r: Request,
    language: Seq<char>,
    accurate: bool,
    front: Seq<char>,
    terms: Seq<char>,
    back: Seq<char>,
)
    requires
        r.asks(language, accurate, front + terms + back),
        forall|i: int| 0 <= i < front.len() ==> chars::is_space(#[trigger] front[i]),
        forall|i: int| 0 <= i < back.len() ==> chars::is_space(#[trigger] back[i]),
        terms.len() > 0 ==> !chars::is_space(terms[0]) && !chars::is_space(terms.last()),
    ensures
        r.threads == 4,
        accurate ==> r.strategy == (Strategy::Beam { size: 5 }),
        !accurate ==> r.strategy == (Strategy::Greedy { best_of: 1 }),
        !r.translate && r.suppress_blank && r.suppress_non_speech && !r.keep_context,
        language == "auto"@ <==> r.language is None,
        language != "auto"@ ==> (r.language matches Some(l) && l@ == language),
        terms.len() == 0 <==> r.prompt is None,
        0 < terms.len() <= 800 ==> (r.prompt matches Some(p) && p@ == terms),
        terms.len() > 800 ==> (r.prompt matches Some(p) && p@ == terms.take(800)),
{
    words::law_trimming_leaves_what_is_inside(front, terms, back);
}

/// Without an override a model comes from its own file, and a model that is not known from that of
/// the base model.
pub proof fn law_where_a_model_comes_from(home: Seq<char>, id: Seq<char>)
    requires
        home.len() > 0,
        home.last() != '/',
    ensures
        models::place(home, id) matches Some(p) ==> source(home, id, None) == p,
        models::place(home, id) is None ==> source(home, id, None) == home
            + "/Library/Application Support/whisper-lite/models/ggml-base.bin"@,
{
    settings::law_everything_is_kept_below_home(home);
    reveal_strlit("/Library/Application Support/whisper-lite");
    reveal_strlit("/Library/Application Support/whisper-lite/models/ggml-base.bin");
    reveal_strlit("models");
    reveal_strlit("ggml-base.bin");
    assert(models::shelf(home) =~= settings::data_dir(home) + seq!['/'] + "models"@);
    assert(paths::below(models::shelf(home), "ggml-base.bin"@) =~= home
        + "/Library/Application Support/whisper-lite/models/ggml-base.bin"@);
}

/// Speech takes a third of a second: 5333 samples.
pub proof fn law_a_third_of_a_second_is_enough(samples: nat)
    ensures
        long_enough(samples) <==> samples >= 5333,
{
}

} // verus!
