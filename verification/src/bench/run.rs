//! The measurement itself: one model on one execution provider, over all clips.
//!
//! Each provider runs in a process of its own, because the peak of a process's memory is that of
//! everything it ran.

use vstd::prelude::*;

use crate::bench::clips;
use crate::bench::clips::{clip_path, Clip};
use crate::bench::wer;
use crate::bench::wer::{wer as error_rate, ErrorRate};
use crate::order;
use crate::order::{sort_descending, Keyed};
use crate::paths;
use crate::paths::join;

verus! {

/// An execution provider.
#[derive(Debug, Clone, Copy, PartialEq, Eq, Structural)]
pub enum Ep {
    /// Plain CPU.
    Cpu,
    /// CoreML restricted to CPU and GPU.
    Coreml,
    /// CoreML allowed to use the Neural Engine.
    CoremlAne,
    /// WebGPU on Metal, which may be numerically wrong: every run is checked against what was
    /// said.
    Webgpu,
}

/// Where the work runs.
#[derive(Debug, Clone, Copy, PartialEq, Eq, Structural)]
pub enum Provider {
    Cpu,
    CoreMl,
    WebGpu,
}

/// What CoreML may use.
#[derive(Debug, Clone, Copy, PartialEq, Eq, Structural)]
pub enum Units {
    CpuAndGpu,
    CpuAndNeuralEngine,
}

/// How a provider is set up.
#[derive(Debug, Clone, Copy, PartialEq, Eq, Structural)]
pub struct Config {
    pub provider: Provider,
    /// The units of CoreML, whose compiled models are cached.
    pub units: Option<Units>,
    pub intra_threads: usize,
    pub inter_threads: usize,
}

impl Ep {
    /// The name in reports.
    pub open spec fn labelled(self) -> Seq<char> {
        match self {
            Ep::Cpu => "CPU"@,
            Ep::Coreml => "CoreML (CPU+GPU)"@,
            Ep::CoremlAne => "CoreML (CPU+ANE)"@,
            Ep::Webgpu => "WebGPU/Metal"@,
        }
    }

    /// The name in reports.
    pub fn label(&self) -> (s: &'static str)
        ensures
            s@ == self.labelled(),
    {
        match self {
            Ep::Cpu => "CPU",
            Ep::Coreml => "CoreML (CPU+GPU)",
            Ep::CoremlAne => "CoreML (CPU+ANE)",
            Ep::Webgpu => "WebGPU/Metal",
        }
    }

    /// Every provider, in the order in which they are measured.
    pub fn all() -> (v: Vec<Ep>)
        ensures
            v@ == seq![Ep::Cpu, Ep::Coreml, Ep::CoremlAne, Ep::Webgpu],
    {
        let v: Vec<Ep> = vec![Ep::Cpu, Ep::Coreml, Ep::CoremlAne, Ep::Webgpu];
        assert(v@ =~= seq![Ep::Cpu, Ep::Coreml, Ep::CoremlAne, Ep::Webgpu]);
        v
    }

    /// The name on the command line.
    pub open spec fn flagged(self) -> Seq<char> {
        match self {
            Ep::Cpu => "cpu"@,
            Ep::Coreml => "coreml"@,
            Ep::CoremlAne => "coreml-ane"@,
            Ep::Webgpu => "webgpu"@,
        }
    }

    /// The directory below `cache` for what the provider compiles.
    pub open spec fn cached(self) -> Seq<char> {
        match self {
            Ep::Cpu => "cpu"@,
            Ep::Coreml => "coreml"@,
            Ep::CoremlAne => "coremlane"@,
            Ep::Webgpu => "webgpu"@,
        }
    }

    /// Where what the provider compiles is kept.
    pub fn cache_dir(&self) -> (dir: String)
        ensures
            dir@ == paths::below("cache"@, self.cached()),
    {
        let name: &'static str = match self {
            Ep::Cpu => "cpu",
            Ep::Coreml => "coreml",
            Ep::CoremlAne => "coremlane",
            Ep::Webgpu => "webgpu",
        };
        join("cache", name)
    }

    /// How the provider is set up.
    ///
    /// Four threads: a dictation app must stay responsive while decoding, and saturating every
    /// core would flatter the measurement.
    pub fn config(&self) -> (c: Config)
        ensures
            c.intra_threads == 4,
            c.inter_threads == 1,
            c.provider == (match *self {
                Ep::Cpu => Provider::Cpu,
                Ep::Coreml => Provider::CoreMl,
                Ep::CoremlAne => Provider::CoreMl,
                Ep::Webgpu => Provider::WebGpu,
            }),
            c.units == (match *self {
                Ep::Cpu => None,
                Ep::Coreml => Some(Units::CpuAndGpu),
                Ep::CoremlAne => Some(Units::CpuAndNeuralEngine),
                Ep::Webgpu => None,
            }),
    {
        let (provider, units): (Provider, Option<Units>) = match self {
            Ep::Cpu => (Provider::Cpu, None),
            Ep::Coreml => (Provider::CoreMl, Some(Units::CpuAndGpu)),
            Ep::CoremlAne => (Provider::CoreMl, Some(Units::CpuAndNeuralEngine)),
            Ep::Webgpu => (Provider::WebGpu, None),
        };
        Config { provider, units, intra_threads: 4, inter_threads: 1 }
    }
}

/// The name of a provider on the command line.
pub fn ep_flag(ep: Ep) -> (s: &'static str)
    ensures
        s@ == ep.flagged(),
{
    match ep {
        Ep::Cpu => "cpu",
        Ep::Coreml => "coreml",
        Ep::CoremlAne => "coreml-ane",
        Ep::Webgpu => "webgpu",
    }
}

/// A time that was taken.
#[derive(Debug, Clone, Copy, PartialEq, Eq, Structural)]
pub struct Lap {
    pub ns: u64,
}

/// Laps are sorted shortest first.
impl Keyed for Lap {
    open spec fn key(&self) -> u64 {
        (u64::MAX - self.ns) as u64
    }

    fn key_of(&self) -> (k: u64) {
        u64::MAX - self.ns
    }
}

/// The laps, shortest first.
pub open spec fn ascending(laps: Seq<Lap>) -> Seq<Lap> {
    order::descending(laps)
}

/// The place of a percentile among `n` sorted values: the nearest one, and of two the later.
pub open spec fn place(n: int, percent: int) -> int {
    ((n - 1) * percent + 50) / 100
}

/// A percentile of sorted laps; of none it is nothing.
pub open spec fn nth_percent(sorted: Seq<Lap>, percent: int) -> u64 {
    if sorted.len() == 0 {
        0
    } else {
        sorted[place(sorted.len() as int, percent)].ns
    }
}

/// A percentile of sorted laps.
pub fn percentile(sorted: &[Lap], percent: u64) -> (ns: u64)
    requires
        percent <= 100,
    ensures
        ns == nth_percent(sorted@, percent as int),
{
    if sorted.len() == 0 {
        return 0;
    }
    let n: u128 = sorted.len() as u128;
    let last: u128 = n - 1;
    let wide: u128 = percent as u128;
    assert(0 <= last * wide <= 0xffff_ffff_ffff_ffff * 100) by (nonlinear_arith)
        requires
            0 <= last <= 0xffff_ffff_ffff_ffff,
            0 <= wide <= 100,
    ;
    assert((last * wide + 50) / 100 <= last) by (nonlinear_arith)
        requires
            0 <= last,
            0 <= wide <= 100,
    ;
    let at: u128 = (last * wide + 50) / 100;
    sorted[at as usize].ns
}

/// The result of one clip.
#[derive(Debug)]
pub struct ClipResult {
    pub clip: &'static str,
    /// Median time to decode: for a segment of this length, what the user waits for.
    pub median_ns: u64,
    pub p95_ns: u64,
    pub wer: ErrorRate,
    pub text: String,
}

impl ClipResult {
    /// The result that these laps and this transcript come to.
    pub open spec fn measures(self, clip: Clip, laps: Seq<Lap>, text: Seq<char>) -> bool {
        &&& self.clip == clip.name
        &&& self.median_ns == nth_percent(ascending(laps), 50)
        &&& self.p95_ns == nth_percent(ascending(laps), 95)
        &&& (self.wer.errors as int, self.wer.words as int) == wer::rate(clip.text@, text)
        &&& self.text@ == text
    }
}

/// What the next event is the answer to.
#[derive(Debug, Clone, Copy, PartialEq, Eq, Structural)]
pub enum Stage {
    LoadingModel,
    LoadingClip,
    WarmingUp,
    Timing,
    Done,
}

/// What to do next.
#[derive(Debug)]
pub enum RunAction {
    /// Load the clip from this file.
    LoadClip(String),
    /// Transcribe it once, untimed: the first time pays for what is set up lazily.
    WarmUp,
    /// Transcribe it and take the time.
    Time,
    /// The measurement is over.
    Stop,
}

/// How it went.
#[derive(Debug)]
pub enum RunEvent {
    /// The last action is done.
    Did(Result<(), String>),
    /// A timed transcription is done: how long it took, and the text.
    Timed(Result<(u64, String), String>),
}

/// A measurement under way.
#[derive(Debug)]
pub struct Run {
    pub ep: Ep,
    pub iters: usize,
    pub audio_dir: String,
    pub stage: Stage,
    /// The results so far, in the order of the clips.
    pub clips: Vec<ClipResult>,
    /// The laps and the last text of the clip under way.
    pub laps: Vec<Lap>,
    pub text: String,
    /// What stopped the measurement early.
    pub error: Option<String>,
}

/// The measurement is over because of this.
pub open spec fn stopped(before: Run, after: Run, action: RunAction, error: Seq<char>) -> bool {
    &&& action is Stop
    &&& after.stage is Done
    &&& after.ep == before.ep
    &&& after.clips@ == before.clips@
    &&& after.error matches Some(e) && e@ == error
}

/// The clip after the ones that have results is loaded, or the measurement is over.
pub open spec fn next_clip(after: Run, action: RunAction) -> bool {
    &&& after.error is None
    &&& if after.clips@.len() < clips::all_clips().len() {
        &&& after.stage is LoadingClip
        &&& action matches RunAction::LoadClip(p) && p@ == clips::clip_file(
            after.audio_dir@,
            clips::all_clips()[after.clips@.len() as int].name@,
        )
    } else {
        after.stage is Done && action is Stop
    }
}

/// The clip under way.
pub open spec fn current(run: Run) -> Clip {
    clips::all_clips()[run.clips@.len() as int]
}

/// The clip under way has these laps and this text: it is timed again until there are enough,
/// and then has its result.
pub open spec fn timed(
    before: Run,
    laps: Seq<Lap>,
    text: Seq<char>,
    after: Run,
    action: RunAction,
) -> bool {
    if laps.len() < before.iters {
        &&& after.stage is Timing
        &&& action is Time
        &&& after.clips@ == before.clips@
        &&& after.laps@ == laps
        &&& after.text@ == text
        &&& after.error is None
    } else {
        &&& after.clips@.len() == before.clips@.len() + 1
        &&& after.clips@.drop_last() == before.clips@
        &&& after.clips@.last().measures(current(before), laps, text)
        &&& next_clip(after, action)
    }
}

/// What the settings of a measurement keep.
pub open spec fn same_setup(before: Run, after: Run) -> bool {
    after.ep == before.ep && after.iters == before.iters && after.audio_dir@ == before.audio_dir@
}

/// One step of a measurement: the first failure ends it, and what was measured before stays.
pub open spec fn stepped(before: Run, event: RunEvent, after: Run, action: RunAction) -> bool {
    match (before.stage, event) {
        (Stage::LoadingModel, RunEvent::Did(Err(e))) => stopped(
            before,
            after,
            action,
            "model load failed: "@ + e@,
        ),
        (Stage::LoadingModel, RunEvent::Did(Ok(_))) => after.clips@ == before.clips@ && next_clip(
            after,
            action,
        ),
        (Stage::LoadingClip, RunEvent::Did(Err(e))) => stopped(
            before,
            after,
            action,
            "loading "@ + clips::clip_file(before.audio_dir@, current(before).name@) + ": "@ + e@,
        ),
        (Stage::LoadingClip, RunEvent::Did(Ok(_))) => {
            &&& after.stage is WarmingUp
            &&& action is WarmUp
            &&& after.clips@ == before.clips@
            &&& after.laps@.len() == 0
            &&& after.text@.len() == 0
            &&& after.error is None
        },
        (Stage::WarmingUp, RunEvent::Did(Err(e))) => stopped(
            before,
            after,
            action,
            "warm-up failed on "@ + current(before).name@ + ": "@ + e@,
        ),
        (Stage::WarmingUp, RunEvent::Did(Ok(_))) => timed(
            before,
            before.laps@,
            before.text@,
            after,
            action,
        ),
        (Stage::Timing, RunEvent::Timed(Err(e))) => stopped(
            before,
            after,
            action,
            "transcribe failed on "@ + current(before).name@ + ": "@ + e@,
        ),
        (Stage::Timing, RunEvent::Timed(Ok((ns, text)))) => timed(
            before,
            before.laps@.push(Lap { ns }),
            text@,
            after,
            action,
        ),
        _ => true,
    }
}

/// Whether the event answers the last action.
pub open spec fn answers(stage: Stage, event: RunEvent) -> bool {
    match event {
        RunEvent::Did(_) => stage is LoadingModel || stage is LoadingClip || stage is WarmingUp,
        RunEvent::Timed(_) => stage is Timing,
    }
}

impl Run {
    /// There is a clip under way unless the measurement is over, and results are those of the
    /// first clips.
    pub open spec fn wf(self) -> bool {
        &&& self.stage !is Done ==> self.clips@.len() < clips::all_clips().len() && self.error is None
        &&& self.clips@.len() <= clips::all_clips().len()
        &&& self.stage is Done && self.error is None ==> self.clips@.len()
            == clips::all_clips().len()
        &&& self.stage is LoadingModel ==> self.clips@.len() == 0
        &&& forall|i: int|
            0 <= i < self.clips@.len() ==> (#[trigger] self.clips@[i]).clip
                == clips::all_clips()[i].name
    }

    /// A measurement that waits for its model: `iters` timed transcriptions of each clip of
    /// `audio_dir`.
    pub fn start(ep: Ep, audio_dir: &str, iters: usize) -> (run: Run)
        ensures
            run.wf(),
            run.ep == ep,
            run.iters == iters,
            run.audio_dir@ == audio_dir@,
            run.stage is LoadingModel,
            run.clips@.len() == 0,
            run.error is None,
    {
        Run {
            ep,
            iters,
            audio_dir: audio_dir.to_owned(),
            stage: Stage::LoadingModel,
            clips: Vec::new(),
            laps: Vec::new(),
            text: String::new(),
            error: None,
        }
    }

    fn give_up(&mut self, error: String) -> (action: RunAction)
        requires
            old(self).wf(),
        ensures
            final(self).wf(),
            same_setup(*old(self), *final(self)),
            stopped(*old(self), *final(self), action, error@),
    {
        self.stage = Stage::Done;
        self.error = Some(error);
        RunAction::Stop
    }

    fn go_on(&mut self) -> (action: RunAction)
        requires
            old(self).error is None,
            old(self).clips@.len() <= clips::all_clips().len(),
            forall|i: int|
                0 <= i < old(self).clips@.len() ==> (#[trigger] old(self).clips@[i]).clip
                    == clips::all_clips()[i].name,
        ensures
            final(self).wf(),
            same_setup(*old(self), *final(self)),
            final(self).clips@ == old(self).clips@,
            next_clip(*final(self), action),
    {
        let all: Vec<Clip> = clips::clips();
        if self.clips.len() < all.len() {
            self.stage = Stage::LoadingClip;
            RunAction::LoadClip(clip_path(self.audio_dir.as_str(), all[self.clips.len()].name))
        } else {
            self.stage = Stage::Done;
            RunAction::Stop
        }
    }

    fn clip(&self) -> (c: Clip)
        requires
            self.clips@.len() < clips::all_clips().len(),
        ensures
            c == current(*self),
    {
        let all: Vec<Clip> = clips::clips();
        all[self.clips.len()]
    }

    /// Times the clip again, or gives it its result.
    fn time_or_close(&mut self) -> (action: RunAction)
        requires
            old(self).wf(),
            old(self).stage !is Done,
            old(self).stage !is LoadingModel,
        ensures
            final(self).wf(),
            same_setup(*old(self), *final(self)),
            timed(*old(self), old(self).laps@, old(self).text@, *final(self), action),
    {
        if self.laps.len() < self.iters {
            self.stage = Stage::Timing;
            return RunAction::Time;
        }
        let clip: Clip = self.clip();
        let mut laps: Vec<Lap> = Vec::new();
        laps.append(&mut self.laps);
        let sorted: Vec<Lap> = sort_descending(laps);
        let text: String = self.text.clone();
        let result: ClipResult = ClipResult {
            clip: clip.name,
            median_ns: percentile(sorted.as_slice(), 50),
            p95_ns: percentile(sorted.as_slice(), 95),
            wer: error_rate(clip.text, text.as_str()),
            text,
        };
        let ghost before = self.clips@;
        self.clips.push(result);
        assert(self.clips@.drop_last() == before);
        self.go_on()
    }

    /// Takes how the last action went and says what to do next.
    pub fn next(&mut self, event: RunEvent) -> (action: RunAction)
        requires
            old(self).wf(),
            answers(old(self).stage, event),
        ensures
            final(self).wf(),
            same_setup(*old(self), *final(self)),
            stepped(*old(self), event, *final(self), action),
    {
        match event {
            RunEvent::Timed(r) => match r {
                Ok((ns, text)) => {
                    self.laps.push(Lap { ns });
                    self.text = text;
                    self.time_or_close()
                },
                Err(e) => {
                    let mut error: String = "transcribe failed on ".to_owned();
                    error.append(self.clip().name);
                    error.append(": ");
                    error.append(e.as_str());
                    self.give_up(error)
                },
            },
            RunEvent::Did(r) => match self.stage {
                Stage::LoadingModel => match r {
                    Ok(_) => self.go_on(),
                    Err(e) => {
                        let mut error: String = "model load failed: ".to_owned();
                        error.append(e.as_str());
                        self.give_up(error)
                    },
                },
                Stage::LoadingClip => match r {
                    Ok(_) => {
                        self.stage = Stage::WarmingUp;
                        self.laps = Vec::new();
                        self.text = String::new();
                        RunAction::WarmUp
                    },
                    Err(e) => {
                        let mut error: String = "loading ".to_owned();
                        error.append(
                            clip_path(self.audio_dir.as_str(), self.clip().name).as_str(),
                        );
                        error.append(": ");
                        error.append(e.as_str());
                        self.give_up(error)
                    },
                },
                _ => match r {
                    Ok(_) => self.time_or_close(),
                    Err(e) => {
                        let mut error: String = "warm-up failed on ".to_owned();
                        error.append(self.clip().name);
                        error.append(": ");
                        error.append(e.as_str());
                        self.give_up(error)
                    },
                },
            },
        }
    }
}

/// The median is the middle lap, and of two the later one.
pub proof fn law_the_median_is_the_middle(n: int)
    requires
        n > 0,
    ensures
        place(n, 50) == n / 2,
{
}

/// The median and the 95th percentile are laps that were taken, and the median is not the longer.
pub proof fn law_percentiles_are_laps_in_order(laps: Seq<Lap>)
    requires
        laps.len() > 0,
    ensures
        laps.contains(Lap { ns: nth_percent(ascending(laps), 50) }),
        laps.contains(Lap { ns: nth_percent(ascending(laps), 95) }),
        nth_percent(ascending(laps), 50) <= nth_percent(ascending(laps), 95),
{
    broadcast use vstd::seq_lib::group_to_multiset_ensures;

    order::law_descending_is_sorted(laps);
    let sorted = ascending(laps);
    let n = sorted.len() as int;
    assert(n == laps.len());
    let a = place(n, 50);
    let b = place(n, 95);
    assert(0 <= a <= b < n);
    assert(sorted.contains(sorted[a]) && sorted.contains(sorted[b]));
    assert(sorted.to_multiset().count(sorted[a]) > 0);
    assert(sorted.to_multiset().count(sorted[b]) > 0);
    assert(laps.contains(sorted[a]) && laps.contains(sorted[b]));
    if a < b {
        assert(sorted[a].key() >= sorted[b].key());
    }
}

/// A measurement that ends without an error has a result for every clip, in order.
pub proof fn law_no_error_means_every_clip(run: Run)
    requires
        run.wf(),
        run.stage is Done,
        run.error is None,
    ensures
        run.clips@.len() == clips::all_clips().len(),
        forall|i: int|
            0 <= i < run.clips@.len() ==> (#[trigger] run.clips@[i]).clip
                == clips::all_clips()[i].name,
{
}

/// A percentile is the lap at the nearest place among the laps from the shortest to the longest, of
/// two places the later; every lap counts.
pub proof fn law_a_percentile_is_the_nearest_place(laps: Seq<Lap>, percent: int)
    requires
        laps.len() > 0,
        0 <= percent <= 100,
    ensures
        ascending(laps).len() == laps.len(),
        ascending(laps).to_multiset() == laps.to_multiset(),
        forall|i: int, j: int|
            0 <= i < j < laps.len() ==> (#[trigger] ascending(laps)[i]).ns <= (
            #[trigger] ascending(laps)[j]).ns,
        exists|at: int|
            0 <= at < laps.len() && nth_percent(ascending(laps), percent) == (
            #[trigger] ascending(laps)[at]).ns && -50 < 100 * at - (laps.len() - 1) * percent <= 50,
        nth_percent(Seq::<Lap>::empty(), percent) == 0,
{
    order::law_descending_is_sorted(laps);
    let sorted = ascending(laps);
    let n = laps.len() as int;
    let at = place(n, percent);
    assert forall|i: int, j: int| 0 <= i < j < n implies (#[trigger] sorted[i]).ns <= (
    #[trigger] sorted[j]).ns by {
        assert(sorted[i].key() >= sorted[j].key());
    }
    assert(0 <= at < n) by (nonlinear_arith)
        requires
            n > 0,
            0 <= percent <= 100,
            at == ((n - 1) * percent + 50) / 100,
    ;
    assert(nth_percent(sorted, percent) == sorted[at].ns);
    assert(-50 < 100 * at - (n - 1) * percent <= 50);
}

/// The result of a clip: its name, the median and the 95th percentile of its laps, the error rate of
/// the text against what was said, and the text.
pub proof fn law_what_the_result_of_a_clip_holds(
    r: ClipResult,
    clip: Clip,
    laps: Seq<Lap>,
    text: Seq<char>,
)
    requires
        r.measures(clip, laps, text),
        laps.len() > 0,
    ensures
        r.clip@ == clip.name@,
        r.text@ == text,
        r.median_ns == ascending(laps)[laps.len() as int / 2].ns,
        r.p95_ns == nth_percent(ascending(laps), 95),
        r.wer.errors == wer::rate(clip.text@, text).0 && r.wer.words == wer::rate(clip.text@, text).1,
{
    order::law_descending_is_sorted(laps);
    law_the_median_is_the_middle(laps.len() as int);
}

/// How a measurement goes on: each clip is loaded, warmed up and then timed as often as was asked for,
/// every lap counts, and the first failure ends it and says where it was.
pub proof fn law_how_a_measurement_goes_on(
    before: Run,
    event: RunEvent,
    after: Run,
    action: RunAction,
    error: String,
    ns: u64,
    text: String,
)
    requires
        before.wf(),
        stepped(before, event, after, action),
    ensures
        before.stage is LoadingModel && event == RunEvent::Did(Err(error)) ==> action is Stop && (
        after.error matches Some(e) && e@ == "model load failed: "@ + error@),
        before.stage is LoadingClip && event == RunEvent::Did(Ok(())) ==> action is WarmUp
            && after.laps@.len() == 0,
        before.stage is LoadingClip && event == RunEvent::Did(Err(error)) ==> action is Stop && (
        after.error matches Some(e) && e@ == "loading "@ + clips::clip_file(
            before.audio_dir@,
            clips::all_clips()[before.clips@.len() as int].name@,
        ) + ": "@ + error@),
        before.stage is WarmingUp && event == RunEvent::Did(Err(error)) ==> action is Stop && (
        after.error matches Some(e) && e@ == "warm-up failed on "@
            + clips::all_clips()[before.clips@.len() as int].name@ + ": "@ + error@),
        before.stage is Timing && event == RunEvent::Timed(Err(error)) ==> action is Stop && (
        after.error matches Some(e) && e@ == "transcribe failed on "@
            + clips::all_clips()[before.clips@.len() as int].name@ + ": "@ + error@),
        before.stage is Timing && event == RunEvent::Timed(Ok((ns, text))) && before.laps@.len() + 1
            < before.iters ==> action is Time && after.laps@ == before.laps@.push(Lap { ns })
            && after.text@ == text@ && after.clips@ == before.clips@,
        before.stage is Timing && event == RunEvent::Timed(Ok((ns, text))) && before.laps@.len() + 1
            >= before.iters ==> after.clips@.len() == before.clips@.len() + 1
            && after.clips@.last().measures(
            clips::all_clips()[before.clips@.len() as int],
            before.laps@.push(Lap { ns }),
            text@,
        ) && after.clips@.drop_last() == before.clips@,
{
}

/// The next clip is the one behind those that have results, in its own file, and behind the last the
/// measurement is over.
pub proof fn law_clips_go_one_after_another(after: Run, action: RunAction)
    requires
        next_clip(after, action),
    ensures
        after.clips@.len() < 4 ==> (action matches RunAction::LoadClip(p) && p@ == clips::clip_file(
            after.audio_dir@,
            clips::all_clips()[after.clips@.len() as int].name@,
        )),
        after.clips@.len() >= 4 ==> action is Stop && after.error is None,
{
}

/// What providers are called in reports, and where what they compile is kept.
pub proof fn law_what_providers_are_called()
    ensures
        Ep::Cpu.labelled() == "CPU"@ && Ep::Coreml.labelled() == "CoreML (CPU+GPU)"@,
        Ep::CoremlAne.labelled() == "CoreML (CPU+ANE)"@ && Ep::Webgpu.labelled() == "WebGPU/Metal"@,
        Ep::Cpu.cached() == "cpu"@ && Ep::Coreml.cached() == "coreml"@,
        Ep::CoremlAne.cached() == "coremlane"@ && Ep::Webgpu.cached() == "webgpu"@,
{
}

} // verus!
