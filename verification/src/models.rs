//! Model registry, downloads, and install state.
//!
//! Models are never bundled: every one is downloaded on demand.

use vstd::prelude::*;

use crate::chars::same_str;
use crate::paths;
use crate::paths::{join, with_extension};
use crate::settings;
use crate::settings::dir;

verus! {

pub const BASE_URL: &'static str = "https://huggingface.co/ggerganov/whisper.cpp/resolve/main";

/// Which shelf a model sits on in the picker.
pub const GROUP_GENERAL: &'static str = "General";

pub const GROUP_ENGLISH: &'static str = "English only";

pub const GROUP_COMPRESSED: &'static str = "Compressed";

#[derive(Debug, Clone, Copy)]
pub struct ModelSpec {
    pub id: &'static str,
    pub name: &'static str,
    pub file: &'static str,
    pub size_mb: u32,
    /// Rough seconds to transcribe a typical utterance on Apple Silicon.
    pub speed: &'static str,
    pub accuracy: &'static str,
    /// 1-5, for the comparison meters.
    pub speed_rank: u8,
    pub accuracy_rank: u8,
    pub note: &'static str,
    pub group: &'static str,
    /// Whether the speed was measured rather than estimated.
    pub measured: bool,
}

/// The models on offer. Sizes are those of the published files: a wrong figure here would make
/// `is_installed` reject a good download.
pub open spec fn models() -> Seq<ModelSpec> {
    seq![
        ModelSpec {
            id: "tiny",
            name: "Tiny",
            file: "ggml-tiny.bin",
            size_mb: 74,
            speed: "~0.1s",
            accuracy: "Low",
            speed_rank: 5,
            accuracy_rank: 1,
            note: "Fastest. Struggles with accents and technical words.",
            group: GROUP_GENERAL,
            measured: false,
        },
        ModelSpec {
            id: "base",
            name: "Base",
            file: "ggml-base.bin",
            size_mb: 141,
            speed: "~0.2s",
            accuracy: "Fair",
            speed_rank: 5,
            accuracy_rank: 2,
            note: "Good for short, clear dictation. The default.",
            group: GROUP_GENERAL,
            measured: true,
        },
        ModelSpec {
            id: "small",
            name: "Small",
            file: "ggml-small.bin",
            size_mb: 465,
            speed: "~0.4s",
            accuracy: "Good",
            speed_rank: 4,
            accuracy_rank: 3,
            note: "Noticeably better on long sentences and accents.",
            group: GROUP_GENERAL,
            measured: true,
        },
        ModelSpec {
            id: "medium",
            name: "Medium",
            file: "ggml-medium.bin",
            size_mb: 1462,
            speed: "~1.2s",
            accuracy: "Very good",
            speed_rank: 2,
            accuracy_rank: 4,
            note: "Strong accuracy, but you will feel the wait.",
            group: GROUP_GENERAL,
            measured: false,
        },
        ModelSpec {
            id: "large-v3-turbo",
            name: "Large v3 Turbo",
            file: "ggml-large-v3-turbo.bin",
            size_mb: 1549,
            speed: "~0.8s",
            accuracy: "Best",
            speed_rank: 3,
            accuracy_rank: 5,
            note: "Best accuracy per second of wait. Needs ~2GB of memory.",
            group: GROUP_GENERAL,
            measured: false,
        },
        ModelSpec {
            id: "large-v3",
            name: "Large v3",
            file: "ggml-large-v3.bin",
            size_mb: 2951,
            speed: "~2.5s",
            accuracy: "Best",
            speed_rank: 1,
            accuracy_rank: 5,
            note: "The most accurate Whisper there is, and the slowest. ~4GB of memory.",
            group: GROUP_GENERAL,
            measured: false,
        },
        ModelSpec {
            id: "tiny.en",
            name: "Tiny English",
            file: "ggml-tiny.en.bin",
            size_mb: 74,
            speed: "~0.1s",
            accuracy: "Fair",
            speed_rank: 5,
            accuracy_rank: 2,
            note: "English only, and better at it than Tiny.",
            group: GROUP_ENGLISH,
            measured: false,
        },
        ModelSpec {
            id: "base.en",
            name: "Base English",
            file: "ggml-base.en.bin",
            size_mb: 141,
            speed: "~0.2s",
            accuracy: "Good",
            speed_rank: 5,
            accuracy_rank: 3,
            note: "The sweet spot if you only ever dictate English.",
            group: GROUP_ENGLISH,
            measured: false,
        },
        ModelSpec {
            id: "small.en",
            name: "Small English",
            file: "ggml-small.en.bin",
            size_mb: 465,
            speed: "~0.4s",
            accuracy: "Very good",
            speed_rank: 4,
            accuracy_rank: 4,
            note: "Handles accents and jargon well without a long wait.",
            group: GROUP_ENGLISH,
            measured: false,
        },
        ModelSpec {
            id: "medium.en",
            name: "Medium English",
            file: "ggml-medium.en.bin",
            size_mb: 1462,
            speed: "~1.2s",
            accuracy: "Best",
            speed_rank: 2,
            accuracy_rank: 5,
            note: "Near-Large accuracy on English, at half the download.",
            group: GROUP_ENGLISH,
            measured: false,
        },
        ModelSpec {
            id: "base-q5_1",
            name: "Base (compressed)",
            file: "ggml-base-q5_1.bin",
            size_mb: 56,
            speed: "~0.2s",
            accuracy: "Fair",
            speed_rank: 5,
            accuracy_rank: 2,
            note: "Base at 40% of the size. Barely any accuracy lost.",
            group: GROUP_COMPRESSED,
            measured: false,
        },
        ModelSpec {
            id: "small-q5_1",
            name: "Small (compressed)",
            file: "ggml-small-q5_1.bin",
            size_mb: 181,
            speed: "~0.4s",
            accuracy: "Good",
            speed_rank: 4,
            accuracy_rank: 3,
            note: "Small accuracy for a Base-sized download.",
            group: GROUP_COMPRESSED,
            measured: false,
        },
        ModelSpec {
            id: "large-v3-turbo-q5_0",
            name: "Large v3 Turbo (compressed)",
            file: "ggml-large-v3-turbo-q5_0.bin",
            size_mb: 547,
            speed: "~0.8s",
            accuracy: "Very good",
            speed_rank: 3,
            accuracy_rank: 4,
            note: "A third of the size of Large v3 Turbo. The best all-rounder here.",
            group: GROUP_COMPRESSED,
            measured: false,
        },
        ModelSpec {
            id: "large-v3-q5_0",
            name: "Large v3 (compressed)",
            file: "ggml-large-v3-q5_0.bin",
            size_mb: 1031,
            speed: "~2.2s",
            accuracy: "Best",
            speed_rank: 1,
            accuracy_rank: 5,
            note: "Large v3 accuracy for a third of the disk.",
            group: GROUP_COMPRESSED,
            measured: false,
        },
    ]
}

/// The models on offer.
pub fn registry() -> (v: Vec<ModelSpec>)
    ensures
        v@ == models(),
{
    let v: Vec<ModelSpec> = vec![
        ModelSpec {
            id: "tiny",
            name: "Tiny",
            file: "ggml-tiny.bin",
            size_mb: 74,
            speed: "~0.1s",
            accuracy: "Low",
            speed_rank: 5,
            accuracy_rank: 1,
            note: "Fastest. Struggles with accents and technical words.",
            group: GROUP_GENERAL,
            measured: false,
        },
        ModelSpec {
            id: "base",
            name: "Base",
            file: "ggml-base.bin",
            size_mb: 141,
            speed: "~0.2s",
            accuracy: "Fair",
            speed_rank: 5,
            accuracy_rank: 2,
            note: "Good for short, clear dictation. The default.",
            group: GROUP_GENERAL,
            measured: true,
        },
        ModelSpec {
            id: "small",
            name: "Small",
            file: "ggml-small.bin",
            size_mb: 465,
            speed: "~0.4s",
            accuracy: "Good",
            speed_rank: 4,
            accuracy_rank: 3,
            note: "Noticeably better on long sentences and accents.",
            group: GROUP_GENERAL,
            measured: true,
        },
        ModelSpec {
            id: "medium",
            name: "Medium",
            file: "ggml-medium.bin",
            size_mb: 1462,
            speed: "~1.2s",
            accuracy: "Very good",
            speed_rank: 2,
            accuracy_rank: 4,
            note: "Strong accuracy, but you will feel the wait.",
            group: GROUP_GENERAL,
            measured: false,
        },
        ModelSpec {
            id: "large-v3-turbo",
            name: "Large v3 Turbo",
            file: "ggml-large-v3-turbo.bin",
            size_mb: 1549,
            speed: "~0.8s",
            accuracy: "Best",
            speed_rank: 3,
            accuracy_rank: 5,
            note: "Best accuracy per second of wait. Needs ~2GB of memory.",
            group: GROUP_GENERAL,
            measured: false,
        },
        ModelSpec {
            id: "large-v3",
            name: "Large v3",
            file: "ggml-large-v3.bin",
            size_mb: 2951,
            speed: "~2.5s",
            accuracy: "Best",
            speed_rank: 1,
            accuracy_rank: 5,
            note: "The most accurate Whisper there is, and the slowest. ~4GB of memory.",
            group: GROUP_GENERAL,
            measured: false,
        },
        ModelSpec {
            id: "tiny.en",
            name: "Tiny English",
            file: "ggml-tiny.en.bin",
            size_mb: 74,
            speed: "~0.1s",
            accuracy: "Fair",
            speed_rank: 5,
            accuracy_rank: 2,
            note: "English only, and better at it than Tiny.",
            group: GROUP_ENGLISH,
            measured: false,
        },
        ModelSpec {
            id: "base.en",
            name: "Base English",
            file: "ggml-base.en.bin",
            size_mb: 141,
            speed: "~0.2s",
            accuracy: "Good",
            speed_rank: 5,
            accuracy_rank: 3,
            note: "The sweet spot if you only ever dictate English.",
            group: GROUP_ENGLISH,
            measured: false,
        },
        ModelSpec {
            id: "small.en",
            name: "Small English",
            file: "ggml-small.en.bin",
            size_mb: 465,
            speed: "~0.4s",
            accuracy: "Very good",
            speed_rank: 4,
            accuracy_rank: 4,
            note: "Handles accents and jargon well without a long wait.",
            group: GROUP_ENGLISH,
            measured: false,
        },
        ModelSpec {
            id: "medium.en",
            name: "Medium English",
            file: "ggml-medium.en.bin",
            size_mb: 1462,
            speed: "~1.2s",
            accuracy: "Best",
            speed_rank: 2,
            accuracy_rank: 5,
            note: "Near-Large accuracy on English, at half the download.",
            group: GROUP_ENGLISH,
            measured: false,
        },
        ModelSpec {
            id: "base-q5_1",
            name: "Base (compressed)",
            file: "ggml-base-q5_1.bin",
            size_mb: 56,
            speed: "~0.2s",
            accuracy: "Fair",
            speed_rank: 5,
            accuracy_rank: 2,
            note: "Base at 40% of the size. Barely any accuracy lost.",
            group: GROUP_COMPRESSED,
            measured: false,
        },
        ModelSpec {
            id: "small-q5_1",
            name: "Small (compressed)",
            file: "ggml-small-q5_1.bin",
            size_mb: 181,
            speed: "~0.4s",
            accuracy: "Good",
            speed_rank: 4,
            accuracy_rank: 3,
            note: "Small accuracy for a Base-sized download.",
            group: GROUP_COMPRESSED,
            measured: false,
        },
        ModelSpec {
            id: "large-v3-turbo-q5_0",
            name: "Large v3 Turbo (compressed)",
            file: "ggml-large-v3-turbo-q5_0.bin",
            size_mb: 547,
            speed: "~0.8s",
            accuracy: "Very good",
            speed_rank: 3,
            accuracy_rank: 4,
            note: "A third of the size of Large v3 Turbo. The best all-rounder here.",
            group: GROUP_COMPRESSED,
            measured: false,
        },
        ModelSpec {
            id: "large-v3-q5_0",
            name: "Large v3 (compressed)",
            file: "ggml-large-v3-q5_0.bin",
            size_mb: 1031,
            speed: "~2.2s",
            accuracy: "Best",
            speed_rank: 1,
            accuracy_rank: 5,
            note: "Large v3 accuracy for a third of the disk.",
            group: GROUP_COMPRESSED,
            measured: false,
        },
    ];
    assert(v@ =~= models());
    v
}


/// The first model of `list` that has the id.
pub open spec fn first_with(list: Seq<ModelSpec>, id: Seq<char>) -> Option<ModelSpec>
    decreases list.len(),
{
    if list.len() == 0 {
        None
    } else if list[0].id@ == id {
        Some(list[0])
    } else {
        first_with(list.drop_first(), id)
    }
}

/// The model that an id names.
pub open spec fn model(id: Seq<char>) -> Option<ModelSpec> {
    first_with(models(), id)
}

/// The model that `id` names, if there is one.
pub fn spec(id: &str) -> (m: Option<ModelSpec>)
    ensures
        m == model(id@),
{
    let all: Vec<ModelSpec> = registry();
    let mut i: usize = 0;
    assert(all@.skip(0) == all@);
    while i < all.len()
        invariant
            i <= all@.len(),
            all@ == models(),
            model(id@) == first_with(all@.skip(i as int), id@),
        decreases all@.len() - i,
    {
        let ghost rest = all@.skip(i as int);
        assert(rest[0] == all@[i as int]);
        if same_str(all[i].id, id) {
            return Some(all[i]);
        }
        assert(rest.drop_first() == all@.skip(i + 1));
        i += 1;
    }
    assert(all@.skip(i as int).len() == 0);
    None
}

/// Where the model files live, below a home directory.
pub open spec fn shelf(home: Seq<char>) -> Seq<char> {
    paths::below(settings::data_dir(home), "models"@)
}

/// Where the model files live.
pub fn models_dir(home: &str) -> (path: String)
    ensures
        path@ == shelf(home@),
{
    join(dir(home).as_str(), "models")
}

/// Where the file of a model lives: nowhere for an id that no model has.
pub open spec fn place(home: Seq<char>, id: Seq<char>) -> Option<Seq<char>> {
    match model(id) {
        Some(m) => Some(paths::below(shelf(home), m.file@)),
        None => None,
    }
}

/// Where the file of the model `id` lives, if there is such a model.
pub fn path_for(home: &str, id: &str) -> (path: Option<String>)
    ensures
        path is Some <==> place(home@, id@) is Some,
        path matches Some(p) ==> place(home@, id@) == Some(p@),
{
    match spec(id) {
        Some(m) => Some(join(models_dir(home).as_str(), m.file)),
        None => None,
    }
}

/// A file of `len` bytes is a whole download of `m`, allowing five percent of slack against the
/// published size.
pub open spec fn whole(m: ModelSpec, len: u64) -> bool {
    len > m.size_mb * 1024 * 1024 * 95 / 100
}

/// A model is installed when its file is there, whole.
pub open spec fn installed(id: Seq<char>, len: Option<u64>) -> bool {
    match (model(id), len) {
        (Some(m), Some(n)) => whole(m, n),
        _ => false,
    }
}

/// Whether the model `id` is installed. `len` is the length of the file at `path_for(id)`, or
/// `None` where there is no such file.
///
/// A partial file from an interrupted download would otherwise look installed and then fail to
/// load.
pub fn is_installed(id: &str, len: Option<u64>) -> (b: bool)
    ensures
        b == installed(id@, len),
{
    match (spec(id), len) {
        (Some(m), Some(n)) => n > (m.size_mb as u64 * 1024 * 1024 * 95) / 100,
        _ => false,
    }
}

/// One row of the model picker.
#[derive(Debug, Clone)]
pub struct ModelInfo {
    pub id: String,
    pub name: String,
    pub size_mb: u32,
    pub speed: String,
    pub accuracy: String,
    pub speed_rank: u8,
    pub accuracy_rank: u8,
    pub note: String,
    pub group: String,
    pub measured: bool,
    pub installed: bool,
    pub active: bool,
}

impl ModelInfo {
    /// The row shows the model `m`: its own figures, whether its file of `len` bytes is whole,
    /// and whether it is the active one.
    pub open spec fn shows(self, m: ModelSpec, len: Option<u64>, active: Seq<char>) -> bool {
        &&& self.id@ == m.id@
        &&& self.name@ == m.name@
        &&& self.size_mb == m.size_mb
        &&& self.speed@ == m.speed@
        &&& self.accuracy@ == m.accuracy@
        &&& self.speed_rank == m.speed_rank
        &&& self.accuracy_rank == m.accuracy_rank
        &&& self.note@ == m.note@
        &&& self.group@ == m.group@
        &&& self.measured == m.measured
        &&& self.installed == installed(m.id@, len)
        &&& self.active == (m.id@ == active)
    }
}

/// The rows of the picker, in the order of the registry. `lens` holds, for each model in that
/// order, the length of its file, or `None` where there is none.
pub fn list(active: &str, lens: &[Option<u64>]) -> (rows: Vec<ModelInfo>)
    requires
        lens@.len() == models().len(),
    ensures
        rows@.len() == models().len(),
        forall|i: int|
            0 <= i < rows@.len() ==> (#[trigger] rows@[i]).shows(models()[i], lens@[i], active@),
{
    let all: Vec<ModelSpec> = registry();
    let mut rows: Vec<ModelInfo> = Vec::new();
    let mut i: usize = 0;
    while i < all.len()
        invariant
            i <= all@.len(),
            all@ == models(),
            lens@.len() == models().len(),
            rows@.len() == i,
            forall|j: int| 0 <= j < i ==> (#[trigger] rows@[j]).shows(models()[j], lens@[j], active@),
        decreases all@.len() - i,
    {
        let m: ModelSpec = all[i];
        let row: ModelInfo = ModelInfo {
            id: m.id.to_owned(),
            name: m.name.to_owned(),
            size_mb: m.size_mb,
            speed: m.speed.to_owned(),
            accuracy: m.accuracy.to_owned(),
            speed_rank: m.speed_rank,
            accuracy_rank: m.accuracy_rank,
            note: m.note.to_owned(),
            group: m.group.to_owned(),
            measured: m.measured,
            installed: is_installed(m.id, lens[i]),
            active: same_str(m.id, active),
        };
        rows.push(row);
        i += 1;
    }
    rows
}


/// No two models share an id.
pub proof fn law_ids_are_unique(i: int, j: int)
    requires
        0 <= i < j < models().len(),
    ensures
        models()[i].id@ != models()[j].id@,
{
    let all = models();
    reveal_strlit("tiny");
    reveal_strlit("base");
    reveal_strlit("small");
    reveal_strlit("medium");
    reveal_strlit("large-v3-turbo");
    reveal_strlit("large-v3");
    reveal_strlit("tiny.en");
    reveal_strlit("base.en");
    reveal_strlit("small.en");
    reveal_strlit("medium.en");
    reveal_strlit("base-q5_1");
    reveal_strlit("small-q5_1");
    reveal_strlit("large-v3-turbo-q5_0");
    reveal_strlit("large-v3-q5_0");
    assert(all[0].id@.len() == 4 && all[0].id@[0] == 't');
    assert(all[1].id@.len() == 4 && all[1].id@[0] == 'b');
    assert(all[2].id@.len() == 5 && all[2].id@[0] == 's');
    assert(all[3].id@.len() == 6 && all[3].id@[0] == 'm');
    assert(all[4].id@.len() == 14 && all[4].id@[0] == 'l');
    assert(all[5].id@.len() == 8 && all[5].id@[0] == 'l');
    assert(all[6].id@.len() == 7 && all[6].id@[0] == 't');
    assert(all[7].id@.len() == 7 && all[7].id@[0] == 'b');
    assert(all[8].id@.len() == 8 && all[8].id@[0] == 's');
    assert(all[9].id@.len() == 9 && all[9].id@[0] == 'm');
    assert(all[10].id@.len() == 9 && all[10].id@[0] == 'b');
    assert(all[11].id@.len() == 10 && all[11].id@[0] == 's');
    assert(all[12].id@.len() == 19 && all[12].id@[0] == 'l');
    assert(all[13].id@.len() == 13 && all[13].id@[0] == 'l');
}

/// No two models share a file.
pub proof fn law_files_are_distinct(i: int, j: int)
    requires
        0 <= i < j < models().len(),
    ensures
        models()[i].file@ != models()[j].file@,
{
    let all = models();
    reveal_strlit("ggml-tiny.bin");
    reveal_strlit("ggml-base.bin");
    reveal_strlit("ggml-small.bin");
    reveal_strlit("ggml-medium.bin");
    reveal_strlit("ggml-large-v3-turbo.bin");
    reveal_strlit("ggml-large-v3.bin");
    reveal_strlit("ggml-tiny.en.bin");
    reveal_strlit("ggml-base.en.bin");
    reveal_strlit("ggml-small.en.bin");
    reveal_strlit("ggml-medium.en.bin");
    reveal_strlit("ggml-base-q5_1.bin");
    reveal_strlit("ggml-small-q5_1.bin");
    reveal_strlit("ggml-large-v3-turbo-q5_0.bin");
    reveal_strlit("ggml-large-v3-q5_0.bin");
    assert(all[0].file@.len() == 13 && all[0].file@[5] == 't');
    assert(all[1].file@.len() == 13 && all[1].file@[5] == 'b');
    assert(all[2].file@.len() == 14 && all[2].file@[5] == 's');
    assert(all[3].file@.len() == 15 && all[3].file@[5] == 'm');
    assert(all[4].file@.len() == 23 && all[4].file@[5] == 'l');
    assert(all[5].file@.len() == 17 && all[5].file@[5] == 'l');
    assert(all[6].file@.len() == 16 && all[6].file@[5] == 't');
    assert(all[7].file@.len() == 16 && all[7].file@[5] == 'b');
    assert(all[8].file@.len() == 17 && all[8].file@[5] == 's');
    assert(all[9].file@.len() == 18 && all[9].file@[5] == 'm');
    assert(all[10].file@.len() == 18 && all[10].file@[5] == 'b');
    assert(all[11].file@.len() == 19 && all[11].file@[5] == 's');
    assert(all[12].file@.len() == 28 && all[12].file@[5] == 'l');
    assert(all[13].file@.len() == 22 && all[13].file@[5] == 'l');
}

/// Every rank is on the meters' scale of one to five.
pub proof fn law_ranks_are_on_the_meter_scale(i: int)
    requires
        0 <= i < models().len(),
    ensures
        1 <= models()[i].speed_rank <= 5,
        1 <= models()[i].accuracy_rank <= 5,
{
}

/// Every model sits on one of the three shelves.
pub proof fn law_every_model_is_on_a_known_shelf(i: int)
    requires
        0 <= i < models().len(),
    ensures
        models()[i].group@ == GROUP_GENERAL@ || models()[i].group@ == GROUP_ENGLISH@
            || models()[i].group@ == GROUP_COMPRESSED@,
{
}

/// Every model is found by its id, and an id that is found is that of a model on offer.
pub proof fn law_models_are_found_by_their_ids(id: Seq<char>)
    ensures
        forall|i: int| 0 <= i < models().len() ==> model((#[trigger] models()[i]).id@) == Some(models()[i]),
        model(id) matches Some(m) ==> models().contains(m) && m.id@ == id,
        model(id) is None ==> forall|i: int| 0 <= i < models().len() ==> (#[trigger] models()[i]).id@ != id,
{
    assert forall|i: int, j: int| 0 <= i < j < models().len() implies (#[trigger] models()[i]).id@ != (
    #[trigger] models()[j]).id@ by {
        law_ids_are_unique(i, j);
    }
    assert forall|i: int| 0 <= i < models().len() implies model((#[trigger] models()[i]).id@) == Some(
        models()[i],
    ) by {
        lemma_first_with_at(models(), i);
    }
    lemma_first_with(models(), id);
}

proof fn lemma_first_with(list: Seq<ModelSpec>, id: Seq<char>)
    ensures
        first_with(list, id) matches Some(m) ==> list.contains(m) && m.id@ == id,
        first_with(list, id) is None ==> forall|i: int|
            0 <= i < list.len() ==> (#[trigger] list[i]).id@ != id,
    decreases list.len(),
{
    if list.len() > 0 && list[0].id@ != id {
        let rest = list.drop_first();
        lemma_first_with(rest, id);
        if let Some(m) = first_with(rest, id) {
            let k = choose|k: int| 0 <= k < rest.len() && rest[k] == m;
            assert(list[k + 1] == m);
        } else {
            assert forall|i: int| 0 <= i < list.len() implies (#[trigger] list[i]).id@ != id by {
                if i > 0 {
                    assert(rest[i - 1] == list[i]);
                }
            }
        }
    } else if list.len() > 0 {
        assert(list.contains(list[0]));
    }
}

proof fn lemma_first_with_at(list: Seq<ModelSpec>, i: int)
    requires
        0 <= i < list.len(),
        forall|j: int, k: int|
            0 <= j < k < list.len() ==> (#[trigger] list[j]).id@ != (#[trigger] list[k]).id@,
    ensures
        first_with(list, list[i].id@) == Some(list[i]),
    decreases list.len(),
{
    if i > 0 {
        let rest = list.drop_first();
        assert forall|j: int, k: int| 0 <= j < k < rest.len() implies (#[trigger] rest[j]).id@ != (
        #[trigger] rest[k]).id@ by {
            assert(rest[j] == list[j + 1]);
            assert(rest[k] == list[k + 1]);
        }
        assert(rest[i - 1] == list[i]);
        assert(list[0].id@ != list[i].id@);
        lemma_first_with_at(rest, i - 1);
    }
}

/// The default model is on offer.
pub proof fn law_the_default_model_exists()
    ensures
        model(settings::defaults().model) is Some,
{
    assert(models()[1].id@ == "base"@);
    law_models_are_found_by_their_ids("base"@);
}

/// An id that no model has is not installed and has no path, whatever is on disk.
pub proof fn law_an_unknown_model_is_nowhere(home: Seq<char>, id: Seq<char>, len: Option<u64>)
    requires
        forall|i: int| 0 <= i < models().len() ==> (#[trigger] models()[i]).id@ != id,
    ensures
        place(home, id) is None,
        !installed(id, len),
{
    lemma_first_with(models(), id);
    if let Some(m) = model(id) {
        let k = choose|k: int| 0 <= k < models().len() && models()[k] == m;
        assert(models()[k].id@ != id);
    }
}

/// Every model has the file that is named after it.
pub proof fn law_each_file_is_named_after_its_model(i: int)
    requires
        0 <= i < models().len(),
    ensures
        models()[i].file@ == seq!['g', 'g', 'm', 'l', '-'] + models()[i].id@ + seq!['.', 'b', 'i', 'n'],
{
    let all = models();
    let front = seq!['g', 'g', 'm', 'l', '-'];
    let back = seq!['.', 'b', 'i', 'n'];
    reveal_strlit("tiny");
    reveal_strlit("base");
    reveal_strlit("small");
    reveal_strlit("medium");
    reveal_strlit("large-v3-turbo");
    reveal_strlit("large-v3");
    reveal_strlit("tiny.en");
    reveal_strlit("base.en");
    reveal_strlit("small.en");
    reveal_strlit("medium.en");
    reveal_strlit("base-q5_1");
    reveal_strlit("small-q5_1");
    reveal_strlit("large-v3-turbo-q5_0");
    reveal_strlit("large-v3-q5_0");
    reveal_strlit("ggml-tiny.bin");
    reveal_strlit("ggml-base.bin");
    reveal_strlit("ggml-small.bin");
    reveal_strlit("ggml-medium.bin");
    reveal_strlit("ggml-large-v3-turbo.bin");
    reveal_strlit("ggml-large-v3.bin");
    reveal_strlit("ggml-tiny.en.bin");
    reveal_strlit("ggml-base.en.bin");
    reveal_strlit("ggml-small.en.bin");
    reveal_strlit("ggml-medium.en.bin");
    reveal_strlit("ggml-base-q5_1.bin");
    reveal_strlit("ggml-small-q5_1.bin");
    reveal_strlit("ggml-large-v3-turbo-q5_0.bin");
    reveal_strlit("ggml-large-v3-q5_0.bin");
    assert(all[0].file@ =~= front + all[0].id@ + back);
    assert(all[1].file@ =~= front + all[1].id@ + back);
    assert(all[2].file@ =~= front + all[2].id@ + back);
    assert(all[3].file@ =~= front + all[3].id@ + back);
    assert(all[4].file@ =~= front + all[4].id@ + back);
    assert(all[5].file@ =~= front + all[5].id@ + back);
    assert(all[6].file@ =~= front + all[6].id@ + back);
    assert(all[7].file@ =~= front + all[7].id@ + back);
    assert(all[8].file@ =~= front + all[8].id@ + back);
    assert(all[9].file@ =~= front + all[9].id@ + back);
    assert(all[10].file@ =~= front + all[10].id@ + back);
    assert(all[11].file@ =~= front + all[11].id@ + back);
    assert(all[12].file@ =~= front + all[12].id@ + back);
    assert(all[13].file@ =~= front + all[13].id@ + back);
}

/// Fourteen models are on offer, with the sizes of their published files in megabytes.
pub proof fn law_what_is_on_offer()
    ensures
        models().len() == 14,
        models()[0].id@ == "tiny"@ && models()[0].size_mb == 74,
        models()[1].id@ == "base"@ && models()[1].size_mb == 141,
        models()[2].id@ == "small"@ && models()[2].size_mb == 465,
        models()[3].id@ == "medium"@ && models()[3].size_mb == 1462,
        models()[4].id@ == "large-v3-turbo"@ && models()[4].size_mb == 1549,
        models()[5].id@ == "large-v3"@ && models()[5].size_mb == 2951,
        models()[6].id@ == "tiny.en"@ && models()[6].size_mb == 74,
        models()[7].id@ == "base.en"@ && models()[7].size_mb == 141,
        models()[8].id@ == "small.en"@ && models()[8].size_mb == 465,
        models()[9].id@ == "medium.en"@ && models()[9].size_mb == 1462,
        models()[10].id@ == "base-q5_1"@ && models()[10].size_mb == 56,
        models()[11].id@ == "small-q5_1"@ && models()[11].size_mb == 181,
        models()[12].id@ == "large-v3-turbo-q5_0"@ && models()[12].size_mb == 547,
        models()[13].id@ == "large-v3-q5_0"@ && models()[13].size_mb == 1031,
{
}

/// A model is installed when its file has more than 95 percent of the published size, counted in
/// megabytes of 1048576 bytes; without a file it is not.
pub proof fn law_when_a_model_is_installed(i: int, len: u64)
    requires
        0 <= i < models().len(),
    ensures
        installed(models()[i].id@, Some(len)) <==> len * 100 > models()[i].size_mb * 1048576 * 95,
        !installed(models()[i].id@, None),
{
    law_models_are_found_by_their_ids(models()[i].id@);
}

/// The file of every model stands on the shelf below the home directory, under its own name.
pub proof fn law_where_each_model_lives(home: Seq<char>, i: int)
    requires
        0 <= i < models().len(),
        home.len() > 0,
        home.last() != '/',
    ensures
        shelf(home) == home + "/Library/Application Support/whisper-lite/models"@,
        place(home, models()[i].id@) == Some(
            home + "/Library/Application Support/whisper-lite/models/"@ + models()[i].file@,
        ),
{
    law_models_are_found_by_their_ids(models()[i].id@);
    law_each_file_is_named_after_its_model(i);
    settings::law_everything_is_kept_below_home(home);
    reveal_strlit("/Library/Application Support/whisper-lite");
    reveal_strlit("/Library/Application Support/whisper-lite/models");
    reveal_strlit("/Library/Application Support/whisper-lite/models/");
    reveal_strlit("models");
    assert(shelf(home) =~= home + "/Library/Application Support/whisper-lite/models"@);
    let file = models()[i].file@;
    assert(file[0] == 'g');
    assert(paths::below(shelf(home), file) =~= home
        + "/Library/Application Support/whisper-lite/models/"@ + file);
}

/// A row of the picker shows all that its model has, whether it is installed, and whether it is the
/// one in use.
pub proof fn law_a_row_shows_its_model(row: ModelInfo, i: int, len: Option<u64>, active: Seq<char>)
    requires
        0 <= i < models().len(),
        row.shows(models()[i], len, active),
    ensures
        row.id@ == models()[i].id@ && row.name@ == models()[i].name@,
        row.size_mb == models()[i].size_mb && row.measured == models()[i].measured,
        row.speed@ == models()[i].speed@ && row.accuracy@ == models()[i].accuracy@,
        row.speed_rank == models()[i].speed_rank && row.accuracy_rank == models()[i].accuracy_rank,
        row.note@ == models()[i].note@ && row.group@ == models()[i].group@,
        row.active <==> active == models()[i].id@,
        row.installed <==> (len matches Some(n) && n * 100 > models()[i].size_mb * 1048576 * 95),
{
    if let Some(n) = len {
        law_when_a_model_is_installed(i, n);
    }
}

} // verus!
