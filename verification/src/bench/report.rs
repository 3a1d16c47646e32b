//! The report: a table of numbers, and the one judgement worth stating, whether the wait for a
//! six-second segment fits the budget.
//!
//! Numbers come as the text they are shown as.

use vstd::prelude::*;

use crate::bench::wer::ErrorRate;
use crate::chars::{chars_of, same_str, string_of};
use crate::numbers;
use crate::numbers::{decimal_text, pad_left, pad_right, repeat};
use crate::order;
use crate::order::{sort_descending, Keyed};
use crate::words;
use crate::words::trim;

verus! {

/// The results of one clip, as they are shown.
#[derive(Debug)]
pub struct ClipRow {
    pub clip: String,
    /// Seconds of audio, to a tenth.
    pub audio: String,
    /// Median milliseconds, whole and to a tenth.
    pub median: String,
    pub median_fine: String,
    /// 95th percentile, in whole milliseconds.
    pub p95: String,
    /// How many times faster than speech, whole and to a tenth.
    pub rtf: String,
    pub rtf_fine: String,
    /// Word error rate in whole percent.
    pub wer: String,
    pub text: String,
    pub rate: ErrorRate,
    pub median_ns: u64,
}

/// What the decode of a six-second segment may take, in milliseconds: the worst wait after the
/// key is released. The rest of the wait for text takes its share of the 400 that are the target.
pub const TAIL_BUDGET_MS: u64 = 250;

/// More than 35 errors in a hundred words: output that is wrong, however fast it came.
pub open spec fn too_wrong(rate: ErrorRate) -> bool {
    rate.errors * 100 > rate.words * 35
}

/// The decode fits the budget.
pub open spec fn in_time(median_ns: u64) -> bool {
    median_ns <= TAIL_BUDGET_MS * 1_000_000
}

impl ClipRow {
    /// The error rate is too high for the output to be right.
    pub open spec fn wrong(self) -> bool {
        too_wrong(self.rate)
    }

    /// The error rate is too high for the output to be right.
    pub fn is_wrong(&self) -> (b: bool)
        ensures
            b == self.wrong(),
    {
        self.rate.errors as u128 * 100 > self.rate.words as u128 * 35
    }

    /// The median fits the budget.
    pub open spec fn fits_budget(self) -> bool {
        in_time(self.median_ns)
    }

    /// The median fits the budget.
    pub fn is_in_budget(&self) -> (b: bool)
        ensures
            b == self.fits_budget(),
    {
        self.median_ns <= TAIL_BUDGET_MS * 1_000_000
    }
}

/// The results of one provider, as they are shown.
#[derive(Debug)]
pub struct EpRow {
    pub label: String,
    /// Milliseconds to load the model.
    pub load: String,
    /// Peak memory in megabytes.
    pub rss: String,
    pub clips: Vec<ClipRow>,
    pub error: Option<String>,
}

/// Texts one after another.
pub open spec fn flat(parts: Seq<Seq<char>>) -> Seq<char>
    decreases parts.len(),
{
    if parts.len() == 0 {
        seq![]
    } else {
        flat(parts.drop_last()) + parts.last()
    }
}

proof fn lemma_flat_grows(parts: Seq<Seq<char>>, i: int)
    requires
        0 <= i < parts.len(),
    ensures
        flat(parts.take(i + 1)) == flat(parts.take(i)) + parts[i],
{
    assert(parts.take(i + 1).drop_last() == parts.take(i));
}

/// The first clip of that name, from a place on.
pub open spec fn find_from(list: Seq<ClipRow>, name: Seq<char>, from: int) -> Option<int>
    decreases list.len() - from,
{
    if from < 0 || from >= list.len() {
        None
    } else if list[from].clip@ == name {
        Some(from)
    } else {
        find_from(list, name, from + 1)
    }
}

/// The first clip of that name.
pub open spec fn find(list: Seq<ClipRow>, name: Seq<char>) -> Option<int> {
    find_from(list, name, 0)
}

proof fn lemma_find(list: Seq<ClipRow>, name: Seq<char>, from: int)
    requires
        0 <= from,
    ensures
        find_from(list, name, from) matches Some(i) ==> from <= i < list.len(),
    decreases list.len() - from,
{
    if from < list.len() && list[from].clip@ != name {
        lemma_find(list, name, from + 1);
    }
}

fn find_clip(list: &Vec<ClipRow>, name: &str) -> (at: Option<usize>)
    ensures
        match at {
            Some(i) => find(list@, name@) == Some(i as int) && i < list@.len(),
            None => find(list@, name@) is None,
        },
{
    let mut i: usize = 0;
    while i < list.len()
        invariant
            i <= list@.len(),
            find(list@, name@) == find_from(list@, name@, i as int),
        decreases list@.len() - i,
    {
        if same_str(list[i].clip.as_str(), name) {
            return Some(i);
        }
        i += 1;
    }
    None
}

/// The median of a clip, or a dash where it was not measured.
pub open spec fn cell(r: EpRow, name: Seq<char>, suffix: Seq<char>) -> Seq<char> {
    match find(r.clips@, name) {
        Some(i) => r.clips@[i].median@ + suffix,
        None => "-"@,
    }
}

fn median_cell(r: &EpRow, name: &str, suffix: &str) -> (s: String)
    ensures
        s@ == cell(*r, name@, suffix@),
{
    match find_clip(&r.clips, name) {
        Some(i) => {
            let mut s: String = r.clips[i].median.clone();
            s.append(suffix);
            s
        },
        None => "-".to_owned(),
    }
}

/// What a provider's median clip says of it.
pub open spec fn verdict(c: ClipRow) -> Seq<char> {
    if c.wrong() {
        "OUTPUT IS WRONG — unusable regardless of speed"@
    } else if c.fits_budget() {
        "fits the 6s-tail budget"@
    } else {
        "too slow for the 400ms p50 target"@
    }
}

fn verdict_text(c: &ClipRow) -> (s: &'static str)
    ensures
        s@ == verdict(*c),
{
    if c.is_wrong() {
        "OUTPUT IS WRONG — unusable regardless of speed"
    } else if c.is_in_budget() {
        "fits the 6s-tail budget"
    } else {
        "too slow for the 400ms p50 target"
    }
}

/// What the winner decides.
pub open spec fn conclusion(c: ClipRow) -> Seq<char> {
    if c.fits_budget() {
        "  The latency thesis holds. Proceed to M1.\n"@
    } else {
        "  Over the 250ms budget. Either lower the force-cut below 6s, \n  or fall back to whisper-rs.\n"@
    }
}

fn conclusion_text(c: &ClipRow) -> (s: &'static str)
    ensures
        s@ == conclusion(*c),
{
    if c.is_in_budget() {
        "  The latency thesis holds. Proceed to M1.\n"
    } else {
        "  Over the 250ms budget. Either lower the force-cut below 6s, \n  or fall back to whisper-rs.\n"
    }
}

/// The heading of one provider.
pub open spec fn ep_heading(r: EpRow) -> Seq<char> {
    "\n"@ + r.label@ + " — load "@ + r.load@ + "ms, peak RSS "@ + r.rss@ + "MB\n"@
}

fn ep_heading_text(r: &EpRow) -> (out: String)
    ensures
        out@ == ep_heading(*r),
{
    let mut out: String = "\n".to_owned();
    out.append(r.label.as_str());
    out.append(" — load ");
    out.append(r.load.as_str());
    out.append("ms, peak RSS ");
    out.append(r.rss.as_str());
    out.append("MB\n");
    out
}

/// One clip of one provider, with its transcript.
pub open spec fn ep_clip(c: ClipRow) -> Seq<char> {
    "  "@ + numbers::flush_left(c.clip@, 6) + " "@ + numbers::flush_right(c.audio@, 5)
        + "s audio → "@ + numbers::flush_right(c.median_fine@, 7) + "ms  ("@
        + numbers::flush_right(c.rtf_fine@, 5) + "x realtime, WER "@ + c.wer@ + "%)\n         “"@
        + words::trimmed(c.text@) + "”\n"@
}

fn ep_clip_text(c: &ClipRow) -> (out: String)
    ensures
        out@ == ep_clip(*c),
{
    let mut out: String = "  ".to_owned();
    out.append(pad_right(c.clip.as_str(), 6).as_str());
    out.append(" ");
    out.append(pad_left(c.audio.as_str(), 5).as_str());
    out.append("s audio → ");
    out.append(pad_left(c.median_fine.as_str(), 7).as_str());
    out.append("ms  (");
    out.append(pad_left(c.rtf_fine.as_str(), 5).as_str());
    out.append("x realtime, WER ");
    out.append(c.wer.as_str());
    out.append("%)\n         “");
    out.append(string_of(trim(chars_of(c.text.as_str()).as_slice()).as_slice()).as_str());
    out.append("”\n");
    out
}

/// The line of a provider that failed.
pub open spec fn failed_line(r: EpRow) -> Seq<char> {
    "  "@ + numbers::flush_left(r.label@, 18) + " "@ + numbers::flush_right("failed"@, 8) + "\n"@
}

fn failed_line_text(r: &EpRow) -> (out: String)
    ensures
        out@ == failed_line(*r),
{
    let mut out: String = "  ".to_owned();
    out.append(pad_right(r.label.as_str(), 18).as_str());
    out.append(" ");
    out.append(pad_left("failed", 8).as_str());
    out.append("\n");
    out
}

/// The line of a provider that was measured.
pub open spec fn measured_line(r: EpRow) -> Seq<char> {
    "  "@ + numbers::flush_left(r.label@, 18) + " "@
        + numbers::flush_right(cell(r, "short"@, ""@), 8) + " "@
        + numbers::flush_right(cell(r, "mid"@, ""@), 8) + " "@
        + numbers::flush_right(cell(r, "long"@, ""@), 8) + " "@
        + numbers::flush_right(cell(r, "xlong"@, ""@), 8) + " "@ + numbers::flush_right(r.rss@, 7)
        + "MB "@ + numbers::flush_right(r.load@, 7) + "ms\n"@
}

fn measured_line_text(r: &EpRow) -> (out: String)
    ensures
        out@ == measured_line(*r),
{
    let mut out: String = "  ".to_owned();
    out.append(pad_right(r.label.as_str(), 18).as_str());
    out.append(" ");
    out.append(pad_left(median_cell(r, "short", "").as_str(), 8).as_str());
    out.append(" ");
    out.append(pad_left(median_cell(r, "mid", "").as_str(), 8).as_str());
    out.append(" ");
    out.append(pad_left(median_cell(r, "long", "").as_str(), 8).as_str());
    out.append(" ");
    out.append(pad_left(median_cell(r, "xlong", "").as_str(), 8).as_str());
    out.append(" ");
    out.append(pad_left(r.rss.as_str(), 7).as_str());
    out.append("MB ");
    out.append(pad_left(r.load.as_str(), 7).as_str());
    out.append("ms\n");
    out
}

/// The verdict on one provider.
pub open spec fn verdict_line(r: EpRow, c: ClipRow) -> Seq<char> {
    "  "@ + numbers::flush_left(r.label@, 18) + " 6s tail "@ + numbers::flush_right(c.median@, 6)
        + "ms  WER "@ + numbers::flush_right(c.wer@, 3) + "%   "@ + verdict(c) + "\n"@
}

fn verdict_line_text(r: &EpRow, c: &ClipRow) -> (out: String)
    ensures
        out@ == verdict_line(*r, *c),
{
    let mut out: String = "  ".to_owned();
    out.append(pad_right(r.label.as_str(), 18).as_str());
    out.append(" 6s tail ");
    out.append(pad_left(c.median.as_str(), 6).as_str());
    out.append("ms  WER ");
    out.append(pad_left(c.wer.as_str(), 3).as_str());
    out.append("%   ");
    out.append(verdict_text(c));
    out.append("\n");
    out
}

/// The head of the table.
pub open spec fn table_head(h: Seq<Seq<char>>) -> Seq<char> {
    "=== Decode time by clip length (median ms) ===\n\n  "@ + numbers::flush_left("provider"@, 18)
        + " "@ + numbers::flush_right(h[0], 8) + " "@ + numbers::flush_right(h[1], 8) + " "@
        + numbers::flush_right(h[2], 8) + " "@ + numbers::flush_right(h[3], 8) + " "@
        + numbers::flush_right("peak RSS"@, 9) + " "@ + numbers::flush_right("load"@, 8) + "\n  "@
        + numbers::run_of('-', 72) + "\n"@
}

fn table_head_text(h: &Vec<String>) -> (out: String)
    requires
        h@.len() == 4,
    ensures
        out@ == table_head(words::strings(h@)),
{
    let mut out: String = "=== Decode time by clip length (median ms) ===\n\n  ".to_owned();
    out.append(pad_right("provider", 18).as_str());
    out.append(" ");
    out.append(pad_left(h[0].as_str(), 8).as_str());
    out.append(" ");
    out.append(pad_left(h[1].as_str(), 8).as_str());
    out.append(" ");
    out.append(pad_left(h[2].as_str(), 8).as_str());
    out.append(" ");
    out.append(pad_left(h[3].as_str(), 8).as_str());
    out.append(" ");
    out.append(pad_left("peak RSS", 9).as_str());
    out.append(" ");
    out.append(pad_left("load", 8).as_str());
    out.append("\n  ");
    out.append(repeat('-', 72).as_str());
    out.append("\n");
    out
}

/// The winner.
pub open spec fn winner_line(r: EpRow, c: ClipRow) -> Seq<char> {
    "\n  Winner: "@ + r.label@ + " at "@ + c.median@ + "ms for a 6s segment.\n"@ + conclusion(c)
}

fn winner_line_text(r: &EpRow, c: &ClipRow) -> (out: String)
    ensures
        out@ == winner_line(*r, *c),
{
    let mut out: String = "\n  Winner: ".to_owned();
    out.append(r.label.as_str());
    out.append(" at ");
    out.append(c.median.as_str());
    out.append("ms for a 6s segment.\n");
    out.append(conclusion_text(c));
    out
}

/// What opens the report.
pub open spec fn opening(machine: Seq<char>, iters: u64) -> Seq<char> {
    "# M0 results\n\nMachine: "@ + machine
        + "\n\nModel: Parakeet TDT 0.6B v3, ONNX int8, via `parakeet-rs` 0.3.7 (ONNX Runtime).\n\nMethod: "@
        + numbers::decimal(iters as nat)
        + " timed iterations per clip after one untimed warm-up; one process per \
     execution provider so peak RSS is not contaminated across runs. Clips are macOS `say` \
     TTS, so **absolute WER is optimistic** — it is here to catch a provider returning \
     garbage, not to publish an accuracy number.\n\n"@
}

fn opening_text(machine: &str, iters: u64) -> (out: String)
    ensures
        out@ == opening(machine@, iters),
{
    let mut out: String = "# M0 results\n\nMachine: ".to_owned();
    out.append(machine);
    out.append("\n\nModel: Parakeet TDT 0.6B v3, ONNX int8, via `parakeet-rs` 0.3.7 (ONNX Runtime).\n\nMethod: ");
    out.append(decimal_text(iters).as_str());
    out.append(" timed iterations per clip after one untimed warm-up; one process per \
     execution provider so peak RSS is not contaminated across runs. Clips are macOS `say` \
     TTS, so **absolute WER is optimistic** — it is here to catch a provider returning \
     garbage, not to publish an accuracy number.\n\n");
    out
}

/// The head of the table of times.
pub open spec fn times_head(h: Seq<Seq<char>>) -> Seq<char> {
    "## Decode time by clip length (median ms)\n\n| Provider | "@ + h[0] + " | "@ + h[1] + " | "@
        + h[2] + " | "@ + h[3] + " | Peak RSS | Model load |\n|---|---|---|---|---|---|---|\n"@
}

fn times_head_text(h: &Vec<String>) -> (out: String)
    requires
        h@.len() == 4,
    ensures
        out@ == times_head(words::strings(h@)),
{
    let mut out: String = "## Decode time by clip length (median ms)\n\n| Provider | ".to_owned();
    out.append(h[0].as_str());
    out.append(" | ");
    out.append(h[1].as_str());
    out.append(" | ");
    out.append(h[2].as_str());
    out.append(" | ");
    out.append(h[3].as_str());
    out.append(" | Peak RSS | Model load |\n|---|---|---|---|---|---|---|\n");
    out
}

/// A provider that failed, in the table of times.
pub open spec fn failed_row(r: EpRow, e: String) -> Seq<char> {
    "| "@ + r.label@ + " | \\- | \\- | \\- | \\- | \\- | **failed**: "@ + e@ + " |\n"@
}

fn failed_row_text(r: &EpRow, e: &String) -> (out: String)
    ensures
        out@ == failed_row(*r, *e),
{
    let mut out: String = "| ".to_owned();
    out.append(r.label.as_str());
    out.append(" | \\- | \\- | \\- | \\- | \\- | **failed**: ");
    out.append(e.as_str());
    out.append(" |\n");
    out
}

/// A provider that was measured, in the table of times.
pub open spec fn times_row(r: EpRow) -> Seq<char> {
    "| "@ + r.label@ + " | "@ + cell(r, "short"@, "ms"@) + " | "@ + cell(r, "mid"@, "ms"@)
        + " | "@ + cell(r, "long"@, "ms"@) + " | "@ + cell(r, "xlong"@, "ms"@) + " | "@ + r.rss@
        + "MB | "@ + r.load@ + "ms |\n"@
}

fn times_row_text(r: &EpRow) -> (out: String)
    ensures
        out@ == times_row(*r),
{
    let mut out: String = "| ".to_owned();
    out.append(r.label.as_str());
    out.append(" | ");
    out.append(median_cell(r, "short", "ms").as_str());
    out.append(" | ");
    out.append(median_cell(r, "mid", "ms").as_str());
    out.append(" | ");
    out.append(median_cell(r, "long", "ms").as_str());
    out.append(" | ");
    out.append(median_cell(r, "xlong", "ms").as_str());
    out.append(" | ");
    out.append(r.rss.as_str());
    out.append("MB | ");
    out.append(r.load.as_str());
    out.append("ms |\n");
    out
}

/// A clip, in the table of factors.
pub open spec fn factor_row(r: EpRow, c: ClipRow) -> Seq<char> {
    "| "@ + r.label@ + " | "@ + c.clip@ + " | "@ + c.audio@ + "s | "@ + c.median@ + "ms | "@
        + c.p95@ + "ms | "@ + c.rtf@ + "x | "@ + c.wer@ + "% |\n"@
}

fn factor_row_text(r: &EpRow, c: &ClipRow) -> (out: String)
    ensures
        out@ == factor_row(*r, *c),
{
    let mut out: String = "| ".to_owned();
    out.append(r.label.as_str());
    out.append(" | ");
    out.append(c.clip.as_str());
    out.append(" | ");
    out.append(c.audio.as_str());
    out.append("s | ");
    out.append(c.median.as_str());
    out.append("ms | ");
    out.append(c.p95.as_str());
    out.append("ms | ");
    out.append(c.rtf.as_str());
    out.append("x | ");
    out.append(c.wer.as_str());
    out.append("% |\n");
    out
}

/// A transcript.
pub open spec fn transcript_line(c: ClipRow) -> Seq<char> {
    "- `"@ + c.clip@ + "` (WER "@ + c.wer@ + "%): "@ + words::trimmed(c.text@) + "\n"@
}

fn transcript_line_text(c: &ClipRow) -> (out: String)
    ensures
        out@ == transcript_line(*c),
{
    let mut out: String = "- `".to_owned();
    out.append(c.clip.as_str());
    out.append("` (WER ");
    out.append(c.wer.as_str());
    out.append("%): ");
    out.append(string_of(trim(chars_of(c.text.as_str()).as_slice()).as_slice()).as_str());
    out.append("\n");
    out
}

/// The clips of one provider, one after another.
pub open spec fn ep_clips(r: EpRow) -> Seq<Seq<char>> {
    Seq::new(r.clips@.len(), |i: int| ep_clip(r.clips@[i]))
}

/// What is shown of one provider.
pub open spec fn ep_shown(r: EpRow) -> Seq<char> {
    ep_heading(r) + (match r.error {
        Some(e) => "  ERROR: "@ + e@ + "\n"@,
        None => flat(ep_clips(r)),
    })
}

/// What is shown of one provider.
pub fn print_ep(r: &EpRow) -> (out: String)
    ensures
        out@ == ep_shown(*r),
{
    let mut out: String = ep_heading_text(r);
    if let Some(e) = &r.error {
        let mut line: String = "  ERROR: ".to_owned();
        line.append(e.as_str());
        line.append("\n");
        out.append(line.as_str());
        return out;
    }
    let mut body: String = String::new();
    let ghost all = ep_clips(*r);
    let mut i: usize = 0;
    while i < r.clips.len()
        invariant
            i <= r.clips@.len(),
            all == ep_clips(*r),
            body@ == flat(all.take(i as int)),
        decreases r.clips@.len() - i,
    {
        proof {
            lemma_flat_grows(all, i as int);
        }
        body.append(ep_clip_text(&r.clips[i]).as_str());
        i += 1;
    }
    assert(all.take(i as int) == all);
    out.append(body.as_str());
    out
}

/// The first provider, from a place on, that measured anything.
pub open spec fn sample_from(rows: Seq<EpRow>, from: int) -> Option<int>
    decreases rows.len() - from,
{
    if from < 0 || from >= rows.len() {
        None
    } else if rows[from].clips@.len() > 0 {
        Some(from)
    } else {
        sample_from(rows, from + 1)
    }
}

/// The head of one column: how long the clip is, by the first provider that measured anything,
/// or the clip's name.
pub open spec fn header(rows: Seq<EpRow>, name: Seq<char>) -> Seq<char> {
    match sample_from(rows, 0) {
        Some(k) => match find(rows[k].clips@, name) {
            Some(i) => rows[k].clips@[i].audio@ + "s"@,
            None => name,
        },
        None => name,
    }
}

/// The heads of the four columns of clips.
pub open spec fn headers_of(rows: Seq<EpRow>) -> Seq<Seq<char>> {
    seq![
        header(rows, "short"@),
        header(rows, "mid"@),
        header(rows, "long"@),
        header(rows, "xlong"@),
    ]
}

fn sample(rows: &[EpRow]) -> (at: Option<usize>)
    ensures
        match at {
            Some(i) => sample_from(rows@, 0) == Some(i as int) && i < rows@.len(),
            None => sample_from(rows@, 0) is None,
        },
{
    let mut i: usize = 0;
    while i < rows.len()
        invariant
            i <= rows@.len(),
            sample_from(rows@, 0) == sample_from(rows@, i as int),
        decreases rows@.len() - i,
    {
        if rows[i].clips.len() > 0 {
            return Some(i);
        }
        i += 1;
    }
    None
}

fn header_text(rows: &[EpRow], name: &str) -> (s: String)
    ensures
        s@ == header(rows@, name@),
{
    match sample(rows) {
        Some(k) => match find_clip(&rows[k].clips, name) {
            Some(i) => {
                let mut s: String = rows[k].clips[i].audio.clone();
                s.append("s");
                s
            },
            None => name.to_owned(),
        },
        None => name.to_owned(),
    }
}

/// The heads of the four columns of clips, from what was measured, so that the table never claims
/// a length that the audio does not have.
pub fn headers(rows: &[EpRow]) -> (h: Vec<String>)
    ensures
        words::strings(h@) == headers_of(rows@),
        h@.len() == 4,
{
    let h: Vec<String> = vec![
        header_text(rows, "short"),
        header_text(rows, "mid"),
        header_text(rows, "long"),
        header_text(rows, "xlong"),
    ];
    assert(words::strings(h@) =~= headers_of(rows@));
    h
}

/// A provider's place in the ranking: its row, its median clip, and what it is ranked by.
#[derive(Debug, Clone, Copy, PartialEq, Eq, Structural)]
pub struct Standing {
    pub row: usize,
    pub clip: usize,
    pub rank: u64,
}

/// The fastest comes first.
impl Keyed for Standing {
    open spec fn key(&self) -> u64 {
        (u64::MAX - self.rank) as u64
    }

    fn key_of(&self) -> (k: u64) {
        u64::MAX - self.rank
    }
}

/// The standing of the provider in row `i`, if it has one: it did not fail, and measured the
/// `mid` clip.
pub open spec fn standing(rows: Seq<EpRow>, i: int) -> Seq<Standing> {
    if rows[i].error is Some {
        seq![]
    } else {
        match find(rows[i].clips@, "mid"@) {
            Some(c) => seq![
                Standing { row: i as usize, clip: c as usize, rank: rows[i].clips@[c].median_ns },
            ],
            None => seq![],
        }
    }
}

/// The standings of the first `n` rows, in the order of the rows.
pub open spec fn standings(rows: Seq<EpRow>, n: int) -> Seq<Standing>
    decreases n,
{
    if n <= 0 {
        seq![]
    } else {
        standings(rows, n - 1) + standing(rows, n - 1)
    }
}

/// The ranking: the fastest first, and equals in the order of the rows.
pub open spec fn ranking(rows: Seq<EpRow>) -> Seq<Standing> {
    order::descending(standings(rows, rows.len() as int))
}

/// A standing names a row and a clip that are there.
pub open spec fn stands(rows: Seq<EpRow>, s: Standing) -> bool {
    s.row < rows.len() && s.clip < rows[s.row as int].clips@.len()
}

fn rank(rows: &[EpRow]) -> (ranked: Vec<Standing>)
    ensures
        ranked@ == ranking(rows@),
        forall|i: int| 0 <= i < ranked@.len() ==> stands(rows@, #[trigger] ranked@[i]),
{
    let mut found: Vec<Standing> = Vec::new();
    let mut i: usize = 0;
    while i < rows.len()
        invariant
            i <= rows@.len(),
            found@ == standings(rows@, i as int),
            forall|j: int| 0 <= j < found@.len() ==> stands(rows@, #[trigger] found@[j]),
        decreases rows@.len() - i,
    {
        let ghost before = found@;
        if rows[i].error.is_none() {
            if let Some(c) = find_clip(&rows[i].clips, "mid") {
                found.push(Standing { row: i, clip: c, rank: rows[i].clips[c].median_ns });
            }
        }
        assert(found@ =~= before + standing(rows@, i as int));
        i += 1;
    }
    let ghost all = found@;
    let ranked: Vec<Standing> = sort_descending(found);
    proof {
        broadcast use vstd::seq_lib::group_to_multiset_ensures;

        order::law_descending_is_sorted(all);
        assert forall|k: int| 0 <= k < ranked@.len() implies stands(rows@, #[trigger] ranked@[k]) by {
            assert(ranked@.contains(ranked@[k]));
            assert(ranked@.to_multiset().count(ranked@[k]) > 0);
            assert(all.contains(ranked@[k]));
        }
    }
    ranked
}

/// The row of a standing.
pub open spec fn row_of(rows: Seq<EpRow>, s: Standing) -> EpRow {
    rows[s.row as int]
}

/// The median clip of a standing.
pub open spec fn clip_of(rows: Seq<EpRow>, s: Standing) -> ClipRow {
    row_of(rows, s).clips@[s.clip as int]
}

/// The first of a ranking, from a place on, whose output is right.
pub open spec fn right_from(rows: Seq<EpRow>, ranked: Seq<Standing>, from: int) -> Option<int>
    decreases ranked.len() - from,
{
    if from < 0 || from >= ranked.len() {
        None
    } else if !clip_of(rows, ranked[from]).wrong() {
        Some(from)
    } else {
        right_from(rows, ranked, from + 1)
    }
}

/// The winner: the fastest whose output is right, and the fastest of all where none is.
pub open spec fn best(rows: Seq<EpRow>, ranked: Seq<Standing>) -> Standing {
    match right_from(rows, ranked, 0) {
        Some(i) => ranked[i],
        None => ranked[0],
    }
}

/// The line of one provider in the table.
pub open spec fn summary_line(r: EpRow) -> Seq<char> {
    if r.error is Some {
        failed_line(r)
    } else {
        measured_line(r)
    }
}

pub open spec fn summary_lines(rows: Seq<EpRow>) -> Seq<Seq<char>> {
    Seq::new(rows.len(), |i: int| summary_line(rows[i]))
}

pub open spec fn verdict_lines(rows: Seq<EpRow>, ranked: Seq<Standing>) -> Seq<Seq<char>> {
    Seq::new(
        ranked.len(),
        |i: int| verdict_line(row_of(rows, ranked[i]), clip_of(rows, ranked[i])),
    )
}

/// The judgement below the table.
pub open spec fn judgement(rows: Seq<EpRow>, ranked: Seq<Standing>) -> Seq<char> {
    if ranked.len() == 0 {
        "  No execution provider completed. Fall back to whisper-rs.\n"@
    } else {
        let winner = best(rows, ranked);
        flat(verdict_lines(rows, ranked)) + winner_line(row_of(rows, winner), clip_of(rows, winner))
    }
}

/// The summary: the table, and the judgement.
pub open spec fn summary(rows: Seq<EpRow>) -> Seq<char> {
    table_head(headers_of(rows)) + flat(summary_lines(rows)) + "\n=== Verdict ===\n\n"@ + judgement(
        rows,
        ranking(rows),
    )
}

fn judge(rows: &[EpRow], ranked: &Vec<Standing>) -> (out: String)
    requires
        forall|i: int| 0 <= i < ranked@.len() ==> stands(rows@, #[trigger] ranked@[i]),
    ensures
        out@ == judgement(rows@, ranked@),
{
    if ranked.len() == 0 {
        return "  No execution provider completed. Fall back to whisper-rs.\n".to_owned();
    }
    let mut out: String = String::new();
    let ghost all = verdict_lines(rows@, ranked@);
    let mut i: usize = 0;
    while i < ranked.len()
        invariant
            i <= ranked@.len(),
            forall|k: int| 0 <= k < ranked@.len() ==> stands(rows@, #[trigger] ranked@[k]),
            all == verdict_lines(rows@, ranked@),
            out@ == flat(all.take(i as int)),
        decreases ranked@.len() - i,
    {
        proof {
            lemma_flat_grows(all, i as int);
        }
        let s: Standing = ranked[i];
        assert(stands(rows@, ranked@[i as int]));
        out.append(verdict_line_text(&rows[s.row], &rows[s.row].clips[s.clip]).as_str());
        i += 1;
    }
    assert(all.take(i as int) == all);
    let mut winner: usize = 0;
    while winner < ranked.len()
        invariant
            winner <= ranked@.len(),
            forall|k: int| 0 <= k < ranked@.len() ==> stands(rows@, #[trigger] ranked@[k]),
            right_from(rows@, ranked@, 0) == right_from(rows@, ranked@, winner as int),
        ensures
            winner <= ranked@.len(),
            right_from(rows@, ranked@, 0) == (if winner < ranked@.len() {
                Some(winner as int)
            } else {
                None
            }),
        decreases ranked@.len() - winner,
    {
        let s: Standing = ranked[winner];
        assert(stands(rows@, ranked@[winner as int]));
        if !rows[s.row].clips[s.clip].is_wrong() {
            break;
        }
        winner += 1;
    }
    let s: Standing = if winner < ranked.len() {
        ranked[winner]
    } else {
        ranked[0]
    };
    assert(s == best(rows@, ranked@));
    assert(stands(rows@, s)) by {
        assert(stands(rows@, ranked@[0]));
    }
    out.append(winner_line_text(&rows[s.row], &rows[s.row].clips[s.clip]).as_str());
    out
}

/// The summary of all providers.
pub fn print_summary(rows: &[EpRow]) -> (out: String)
    ensures
        out@ == summary(rows@),
{
    let mut out: String = table_head_text(&headers(rows));
    let mut table: String = String::new();
    let ghost all = summary_lines(rows@);
    let mut i: usize = 0;
    while i < rows.len()
        invariant
            i <= rows@.len(),
            all == summary_lines(rows@),
            table@ == flat(all.take(i as int)),
        decreases rows@.len() - i,
    {
        proof {
            lemma_flat_grows(all, i as int);
        }
        if rows[i].error.is_some() {
            table.append(failed_line_text(&rows[i]).as_str());
        } else {
            table.append(measured_line_text(&rows[i]).as_str());
        }
        i += 1;
    }
    assert(all.take(i as int) == all);
    out.append(table.as_str());
    out.append("\n=== Verdict ===\n\n");
    out.append(judge(rows, &rank(rows)).as_str());
    out
}

/// The rows of the table of times.
pub open spec fn times_rows(rows: Seq<EpRow>) -> Seq<Seq<char>> {
    Seq::new(
        rows.len(),
        |i: int|
            match rows[i].error {
                Some(e) => failed_row(rows[i], e),
                None => times_row(rows[i]),
            },
    )
}

/// The rows of one provider in the table of factors.
pub open spec fn factor_rows(r: EpRow) -> Seq<Seq<char>> {
    Seq::new(r.clips@.len(), |j: int| factor_row(r, r.clips@[j]))
}

pub open spec fn all_factor_rows(rows: Seq<EpRow>) -> Seq<Seq<char>> {
    Seq::new(rows.len(), |i: int| flat(factor_rows(rows[i])))
}

pub open spec fn transcript_lines(r: EpRow) -> Seq<Seq<char>> {
    Seq::new(r.clips@.len(), |j: int| transcript_line(r.clips@[j]))
}

/// The transcripts of one provider.
pub open spec fn transcripts(r: EpRow) -> Seq<char> {
    "**"@ + r.label@ + "**\n\n"@ + (match r.error {
        Some(e) => "- failed: "@ + e@ + "\n\n"@,
        None => flat(transcript_lines(r)) + "\n"@,
    })
}

pub open spec fn all_transcripts(rows: Seq<EpRow>) -> Seq<Seq<char>> {
    Seq::new(rows.len(), |i: int| transcripts(rows[i]))
}

/// The machine, without its outer white space; one that is not known is called so.
pub open spec fn machine_name(machine: Option<Seq<char>>) -> Seq<char> {
    match machine {
        Some(m) => words::trimmed(m),
        None => "unknown"@,
    }
}

/// The whole report.
pub open spec fn report(machine: Option<Seq<char>>, rows: Seq<EpRow>, iters: u64) -> Seq<char> {
    opening(machine_name(machine), iters) + times_head(headers_of(rows)) + flat(times_rows(rows))
        + FACTORS@ + flat(all_factor_rows(rows)) + TRANSCRIPTS@ + flat(all_transcripts(rows))
        + CLOSING@
}

/// What stands above the table of factors.
pub const FACTORS: &'static str =
    "\n## Real-time factor and accuracy\n\n| Provider | Clip | Audio | Median | p95 | RTF | WER |\n|---|---|---|---|---|---|---|\n";

/// What stands above the transcripts.
pub const TRANSCRIPTS: &'static str =
    "\n## Transcripts\n\nChecked against the reference text to catch numerically wrong providers.\n\n";

/// What closes the report.
pub const CLOSING: &'static str = "## What this decides\n\nSegmentation force-cuts at 6s, so the **6s column is the worst-case tail** the user \
    waits on after releasing the key. Budget for that decode is ~250ms inside \
    the 400ms p50 target, once capture start, post-processing and injection are accounted \
    for.\n\n";

fn times_table(rows: &[EpRow]) -> (out: String)
    ensures
        out@ == flat(times_rows(rows@)),
{
    let mut out: String = String::new();
    let ghost all = times_rows(rows@);
    let mut i: usize = 0;
    while i < rows.len()
        invariant
            i <= rows@.len(),
            all == times_rows(rows@),
            out@ == flat(all.take(i as int)),
        decreases rows@.len() - i,
    {
        proof {
            lemma_flat_grows(all, i as int);
        }
        match &rows[i].error {
            Some(e) => {
                out.append(failed_row_text(&rows[i], e).as_str());
            },
            None => {
                out.append(times_row_text(&rows[i]).as_str());
            },
        }
        i += 1;
    }
    assert(all.take(i as int) == all);
    out
}

fn factors_of(r: &EpRow) -> (out: String)
    ensures
        out@ == flat(factor_rows(*r)),
{
    let mut out: String = String::new();
    let ghost all = factor_rows(*r);
    let mut j: usize = 0;
    while j < r.clips.len()
        invariant
            j <= r.clips@.len(),
            all == factor_rows(*r),
            out@ == flat(all.take(j as int)),
        decreases r.clips@.len() - j,
    {
        proof {
            lemma_flat_grows(all, j as int);
        }
        out.append(factor_row_text(r, &r.clips[j]).as_str());
        j += 1;
    }
    assert(all.take(j as int) == all);
    out
}

fn factors_table(rows: &[EpRow]) -> (out: String)
    ensures
        out@ == flat(all_factor_rows(rows@)),
{
    let mut out: String = String::new();
    let ghost all = all_factor_rows(rows@);
    let mut i: usize = 0;
    while i < rows.len()
        invariant
            i <= rows@.len(),
            all == all_factor_rows(rows@),
            out@ == flat(all.take(i as int)),
        decreases rows@.len() - i,
    {
        proof {
            lemma_flat_grows(all, i as int);
        }
        out.append(factors_of(&rows[i]).as_str());
        i += 1;
    }
    assert(all.take(i as int) == all);
    out
}

fn transcripts_of(r: &EpRow) -> (out: String)
    ensures
        out@ == transcripts(*r),
{
    let mut out: String = "**".to_owned();
    out.append(r.label.as_str());
    out.append("**\n\n");
    if let Some(e) = &r.error {
        let mut line: String = "- failed: ".to_owned();
        line.append(e.as_str());
        line.append("\n\n");
        out.append(line.as_str());
        return out;
    }
    let mut body: String = String::new();
    let ghost all = transcript_lines(*r);
    let mut j: usize = 0;
    while j < r.clips.len()
        invariant
            j <= r.clips@.len(),
            all == transcript_lines(*r),
            body@ == flat(all.take(j as int)),
        decreases r.clips@.len() - j,
    {
        proof {
            lemma_flat_grows(all, j as int);
        }
        body.append(transcript_line_text(&r.clips[j]).as_str());
        j += 1;
    }
    assert(all.take(j as int) == all);
    body.append("\n");
    out.append(body.as_str());
    out
}

fn transcripts_all(rows: &[EpRow]) -> (out: String)
    ensures
        out@ == flat(all_transcripts(rows@)),
{
    let mut out: String = String::new();
    let ghost all = all_transcripts(rows@);
    let mut i: usize = 0;
    while i < rows.len()
        invariant
            i <= rows@.len(),
            all == all_transcripts(rows@),
            out@ == flat(all.take(i as int)),
        decreases rows@.len() - i,
    {
        proof {
            lemma_flat_grows(all, i as int);
        }
        out.append(transcripts_of(&rows[i]).as_str());
        i += 1;
    }
    assert(all.take(i as int) == all);
    out
}

/// The report as Markdown. `machine` is what the system calls itself, if it says.
pub fn write_markdown(machine: Option<&str>, rows: &[EpRow], iters: u64) -> (out: String)
    ensures
        out@ == report(
            match machine {
                Some(m) => Some(m@),
                None => None,
            },
            rows@,
            iters,
        ),
{
    let name: String = match machine {
        Some(m) => string_of(trim(chars_of(m).as_slice()).as_slice()),
        None => "unknown".to_owned(),
    };
    let mut out: String = opening_text(name.as_str(), iters);
    out.append(times_head_text(&headers(rows)).as_str());
    out.append(times_table(rows).as_str());
    out.append(FACTORS);
    out.append(factors_table(rows).as_str());
    out.append(TRANSCRIPTS);
    out.append(transcripts_all(rows).as_str());
    out.append(CLOSING);
    out
}

/// A standing is that of a provider that did not fail, by its `mid` clip.
pub open spec fn holds_of(rows: Seq<EpRow>, s: Standing) -> bool {
    &&& stands(rows, s)
    &&& row_of(rows, s).error is None
    &&& find(row_of(rows, s).clips@, "mid"@) == Some(s.clip as int)
    &&& s.rank == clip_of(rows, s).median_ns
}

/// Rows that fit a machine.
pub open spec fn fits(rows: Seq<EpRow>) -> bool {
    rows.len() <= usize::MAX && forall|i: int|
        0 <= i < rows.len() ==> (#[trigger] rows[i]).clips@.len() <= usize::MAX
}

proof fn lemma_standings(rows: Seq<EpRow>, n: int)
    requires
        fits(rows),
        0 <= n <= rows.len(),
    ensures
        forall|i: int| 0 <= i < standings(rows, n).len() ==> holds_of(
            rows,
            #[trigger] standings(rows, n)[i],
        ),
    decreases n,
{
    if n > 0 {
        lemma_standings(rows, n - 1);
        let before = standings(rows, n - 1);
        let one = standing(rows, n - 1);
        lemma_find(rows[n - 1].clips@, "mid"@, 0);
        assert forall|i: int| 0 <= i < standings(rows, n).len() implies holds_of(
            rows,
            #[trigger] standings(rows, n)[i],
        ) by {
            if i < before.len() {
                assert(standings(rows, n)[i] == before[i]);
            } else {
                assert(standings(rows, n)[i] == one[i - before.len()]);
            }
        }
    }
}

/// Only providers that did not fail and measured the `mid` clip are ranked, the fastest first.
pub proof fn law_the_ranking_is_of_what_was_measured(rows: Seq<EpRow>)
    requires
        fits(rows),
    ensures
        forall|i: int| 0 <= i < ranking(rows).len() ==> holds_of(rows, #[trigger] ranking(rows)[i]),
        forall|i: int, j: int|
            0 <= i < j < ranking(rows).len() ==> (#[trigger] ranking(rows)[i]).rank <= (
            #[trigger] ranking(rows)[j]).rank,
{
    broadcast use vstd::seq_lib::group_to_multiset_ensures;

    let all = standings(rows, rows.len() as int);
    let ranked = ranking(rows);
    lemma_standings(rows, rows.len() as int);
    order::law_descending_is_sorted(all);
    assert forall|i: int| 0 <= i < ranked.len() implies holds_of(rows, #[trigger] ranked[i]) by {
        assert(ranked.contains(ranked[i]));
        assert(ranked.to_multiset().count(ranked[i]) > 0);
        assert(all.contains(ranked[i]));
        let k = choose|k: int| 0 <= k < all.len() && all[k] == ranked[i];
        assert(holds_of(rows, all[k]));
    }
    assert forall|i: int, j: int| 0 <= i < j < ranked.len() implies (#[trigger] ranked[i]).rank <= (
    #[trigger] ranked[j]).rank by {
        assert(ranked[i].key() >= ranked[j].key());
    }
}

/// The winner's output is right unless nobody's is, and no provider with right output is faster.
pub proof fn law_the_fastest_right_output_wins(rows: Seq<EpRow>, j: int)
    requires
        fits(rows),
        0 <= j < ranking(rows).len(),
        !clip_of(rows, ranking(rows)[j]).wrong(),
    ensures
        !clip_of(rows, best(rows, ranking(rows))).wrong(),
        best(rows, ranking(rows)).rank <= ranking(rows)[j].rank,
{
    let ranked = ranking(rows);
    law_the_ranking_is_of_what_was_measured(rows);
    lemma_right_from(rows, ranked, 0, j);
    let i = right_from(rows, ranked, 0)->0;
    if i < j {
        assert(ranked[i].rank <= ranked[j].rank);
    }
}

proof fn lemma_right_from(rows: Seq<EpRow>, ranked: Seq<Standing>, from: int, j: int)
    requires
        0 <= from <= j < ranked.len(),
        !clip_of(rows, ranked[j]).wrong(),
    ensures
        right_from(rows, ranked, from) matches Some(i) && from <= i <= j && !clip_of(
            rows,
            ranked[i],
        ).wrong(),
    decreases j - from,
{
    if clip_of(rows, ranked[from]).wrong() {
        lemma_right_from(rows, ranked, from + 1, j);
    }
}

/// A report is its parts, one behind another, all of them.
pub proof fn law_every_part_is_in_the_report(a: Seq<Seq<char>>, b: Seq<Seq<char>>, one: Seq<char>)
    ensures
        flat(a + b) == flat(a) + flat(b),
        flat(seq![one]) == one,
        flat(Seq::<Seq<char>>::empty()) == Seq::<char>::empty(),
    decreases b.len(),
{
    let none = Seq::<Seq<char>>::empty();
    assert(flat(none) =~= seq![]);
    assert(seq![one].drop_last() =~= none);
    assert(flat(seq![one]) =~= one);
    if b.len() == 0 {
        assert(a + b =~= a);
        assert(flat(a) + flat(b) =~= flat(a));
    } else {
        law_every_part_is_in_the_report(a, b.drop_last(), one);
        assert((a + b).drop_last() =~= a + b.drop_last());
        assert((a + b).last() == b.last());
        assert(flat(a + b) =~= flat(a) + flat(b));
    }
}

/// When an output is wrong, and when it is in time: more than 35 errors in 100 words, and no more than
/// 250 milliseconds. A wrong output is no use however fast it came.
pub proof fn law_what_a_verdict_says(c: ClipRow)
    ensures
        c.wrong() <==> c.rate.errors * 100 > 35 * c.rate.words,
        c.fits_budget() <==> c.median_ns <= 250_000_000,
        c.rate.errors * 100 > 35 * c.rate.words ==> verdict(c)
            == "OUTPUT IS WRONG — unusable regardless of speed"@,
        c.rate.errors * 100 <= 35 * c.rate.words && c.median_ns <= 250_000_000 ==> verdict(c)
            == "fits the 6s-tail budget"@,
        c.rate.errors * 100 <= 35 * c.rate.words && c.median_ns > 250_000_000 ==> verdict(c)
            == "too slow for the 400ms p50 target"@,
        c.median_ns <= 250_000_000 ==> conclusion(c)
            == "  The latency thesis holds. Proceed to M1.\n"@,
        c.median_ns > 250_000_000 ==> conclusion(c)
            == "  Over the 250ms budget. Either lower the force-cut below 6s, \n  or fall back to whisper-rs.\n"@,
{
}

proof fn lemma_find_is_first(list: Seq<ClipRow>, name: Seq<char>, from: int)
    requires
        0 <= from,
    ensures
        match find_from(list, name, from) {
            Some(i) => from <= i < list.len() && list[i].clip@ == name && forall|k: int|
                from <= k < i ==> (#[trigger] list[k]).clip@ != name,
            None => forall|k: int| from <= k < list.len() ==> (#[trigger] list[k]).clip@ != name,
        },
    decreases list.len() - from,
{
    if from < list.len() && list[from].clip@ != name {
        lemma_find_is_first(list, name, from + 1);
    }
}

/// A clip is found by its name, the first of that name, and only if there is one.
pub proof fn law_a_clip_is_found_by_its_name(list: Seq<ClipRow>, name: Seq<char>)
    ensures
        match find(list, name) {
            Some(i) => 0 <= i < list.len() && list[i].clip@ == name && forall|k: int|
                0 <= k < i ==> (#[trigger] list[k]).clip@ != name,
            None => forall|k: int| 0 <= k < list.len() ==> (#[trigger] list[k]).clip@ != name,
        },
{
    lemma_find_is_first(list, name, 0);
}

/// A cell of a table holds the median of its clip, and a dash where the clip was not measured.
pub proof fn law_what_a_cell_holds(r: EpRow, name: Seq<char>, suffix: Seq<char>, i: int)
    ensures
        0 <= i < r.clips@.len() && r.clips@[i].clip@ == name && (forall|k: int|
            0 <= k < i ==> (#[trigger] r.clips@[k]).clip@ != name) ==> cell(r, name, suffix)
            == r.clips@[i].median@ + suffix,
        (forall|k: int| 0 <= k < r.clips@.len() ==> (#[trigger] r.clips@[k]).clip@ != name) ==> cell(
            r,
            name,
            suffix,
        ) == seq!['-'],
{
    lemma_find_is_first(r.clips@, name, 0);
    reveal_strlit("-");
    assert("-"@ =~= seq!['-']);
    if 0 <= i < r.clips@.len() && r.clips@[i].clip@ == name && (forall|k: int|
        0 <= k < i ==> (#[trigger] r.clips@[k]).clip@ != name) {
        let found = find(r.clips@, name)->0;
        assert(find(r.clips@, name) is Some);
        assert(found == i) by {
            if found < i {
                assert(r.clips@[found].clip@ != name);
            } else if i < found {
                assert(r.clips@[i].clip@ != name);
            }
        }
    }
}

proof fn lemma_standings_hold_each(rows: Seq<EpRow>, n: int, i: int)
    requires
        0 <= i < n <= rows.len(),
        rows[i].error is None,
        find(rows[i].clips@, "mid"@) is Some,
    ensures
        standings(rows, n).contains(
            Standing {
                row: i as usize,
                clip: (find(rows[i].clips@, "mid"@)->0) as usize,
                rank: rows[i].clips@[find(rows[i].clips@, "mid"@)->0].median_ns,
            },
        ),
    decreases n,
{
    let c = find(rows[i].clips@, "mid"@)->0;
    let s = Standing { row: i as usize, clip: c as usize, rank: rows[i].clips@[c].median_ns };
    let all = standings(rows, n);
    let before = standings(rows, n - 1);
    if i == n - 1 {
        assert(standing(rows, i)[0] == s);
        assert(all[before.len() as int] == s);
    } else {
        lemma_standings_hold_each(rows, n - 1, i);
        let k = choose|k: int| 0 <= k < before.len() && before[k] == s;
        assert(all[k] == s);
    }
}

proof fn lemma_standings_ascend(rows: Seq<EpRow>, n: int)
    requires
        0 <= n <= rows.len(),
        fits(rows),
    ensures
        forall|i: int| 0 <= i < standings(rows, n).len() ==> (#[trigger] standings(rows, n)[i]).row < n,
        forall|i: int, j: int|
            0 <= i < j < standings(rows, n).len() ==> (#[trigger] standings(rows, n)[i]).row < (
            #[trigger] standings(rows, n)[j]).row,
    decreases n,
{
    if n > 0 {
        lemma_standings_ascend(rows, n - 1);
        let before = standings(rows, n - 1);
        let one = standing(rows, n - 1);
        let all = standings(rows, n);
        assert forall|i: int| 0 <= i < all.len() implies (#[trigger] all[i]).row < n by {
            if i < before.len() {
                assert(all[i] == before[i]);
            } else {
                assert(all[i] == one[i - before.len()]);
            }
        }
        assert forall|i: int, j: int| 0 <= i < j < all.len() implies (#[trigger] all[i]).row < (
        #[trigger] all[j]).row by {
            assert(all[i] == before[i]);
            if j < before.len() {
                assert(all[j] == before[j]);
            } else {
                assert(all[j] == one[j - before.len()]);
            }
        }
    }
}

/// Every provider that did not fail and measured the `mid` clip is ranked, by its median of that clip,
/// and once.
pub proof fn law_every_measured_provider_is_ranked(rows: Seq<EpRow>, i: int, c: int, s: Standing)
    requires
        fits(rows),
        0 <= i < rows.len(),
        rows[i].error is None,
        0 <= c < rows[i].clips@.len(),
        rows[i].clips@[c].clip@ == "mid"@,
        forall|k: int| 0 <= k < c ==> (#[trigger] rows[i].clips@[k]).clip@ != "mid"@,
        s == (Standing { row: i as usize, clip: c as usize, rank: rows[i].clips@[c].median_ns }),
    ensures
        ranking(rows).contains(s),
        forall|a: int, b: int|
            0 <= a < ranking(rows).len() && 0 <= b < ranking(rows).len() && a != b ==> (
            #[trigger] ranking(rows)[a]).row != (#[trigger] ranking(rows)[b]).row,
{
    broadcast use vstd::seq_lib::group_to_multiset_ensures;

    let n = rows.len() as int;
    let all = standings(rows, n);
    let ranked = ranking(rows);
    lemma_find_is_first(rows[i].clips@, "mid"@, 0);
    let found = find(rows[i].clips@, "mid"@)->0;
    assert(find(rows[i].clips@, "mid"@) is Some);
    assert(found == c) by {
        if found < c {
            assert(rows[i].clips@[found].clip@ != "mid"@);
        } else if c < found {
            assert(rows[i].clips@[c].clip@ != "mid"@);
        }
    }
    lemma_standings_hold_each(rows, n, i);
    lemma_standings_ascend(rows, n);
    order::law_descending_is_sorted(all);
    assert(all.contains(s));
    assert(all.to_multiset().count(s) > 0);
    assert(ranked.contains(s));
    assert(all.no_duplicates());
    all.lemma_multiset_has_no_duplicates();
    assert(ranked.to_multiset() == all.to_multiset());
    ranked.lemma_multiset_has_no_duplicates_conv();
    assert forall|a: int, b: int|
        0 <= a < ranked.len() && 0 <= b < ranked.len() && a != b implies (#[trigger] ranked[a]).row != (
    #[trigger] ranked[b]).row by {
        assert(ranked.contains(ranked[a]) && ranked.contains(ranked[b]));
        assert(all.to_multiset().count(ranked[a]) > 0 && all.to_multiset().count(ranked[b]) > 0);
        let x = choose|x: int| 0 <= x < all.len() && all[x] == ranked[a];
        let y = choose|y: int| 0 <= y < all.len() && all[y] == ranked[b];
        assert(ranked[a] != ranked[b]);
        assert(x != y);
        if x < y {
            assert(all[x].row < all[y].row);
        } else {
            assert(all[y].row < all[x].row);
        }
    }
}

/// Every provider has its line in every table, in its order, and every clip of it its own: those that
/// failed say so, and nothing is left out however many there are.
pub proof fn law_every_provider_has_its_line(rows: Seq<EpRow>, i: int, j: int)
    requires
        0 <= i < rows.len(),
    ensures
        summary_lines(rows).len() == rows.len(),
        times_rows(rows).len() == rows.len(),
        all_factor_rows(rows).len() == rows.len(),
        all_transcripts(rows).len() == rows.len(),
        rows[i].error is Some ==> summary_lines(rows)[i] == failed_line(rows[i]),
        rows[i].error is None ==> summary_lines(rows)[i] == measured_line(rows[i]) && times_rows(
            rows,
        )[i] == times_row(rows[i]),
        rows[i].error matches Some(e) ==> times_rows(rows)[i] == failed_row(rows[i], e),
        all_factor_rows(rows)[i] == flat(factor_rows(rows[i])),
        factor_rows(rows[i]).len() == rows[i].clips@.len(),
        transcript_lines(rows[i]).len() == rows[i].clips@.len(),
        ep_clips(rows[i]).len() == rows[i].clips@.len(),
        0 <= j < rows[i].clips@.len() ==> factor_rows(rows[i])[j] == factor_row(
            rows[i],
            rows[i].clips@[j],
        ) && transcript_lines(rows[i])[j] == transcript_line(rows[i].clips@[j]) && ep_clips(
            rows[i],
        )[j] == ep_clip(rows[i].clips@[j]),
        rows[i].error is None ==> all_transcripts(rows)[i] == "**"@ + rows[i].label@ + "**\n\n"@ + (
        flat(transcript_lines(rows[i])) + "\n"@),
        rows[i].error matches Some(e) ==> all_transcripts(rows)[i] == "**"@ + rows[i].label@
            + "**\n\n"@ + ("- failed: "@ + e@ + "\n\n"@),
        rows[i].error is None ==> ep_shown(rows[i]) == ep_heading(rows[i]) + flat(ep_clips(rows[i])),
        rows[i].error matches Some(e) ==> ep_shown(rows[i]) == ep_heading(rows[i]) + ("  ERROR: "@
            + e@ + "\n"@),
{
}

/// The text that a clip came to stands whole in its lines, without its outer white space, and so do
/// its name and its numbers.
pub proof fn law_what_the_lines_of_a_clip_hold(r: EpRow, c: ClipRow)
    ensures
        transcript_line(c) == "- `"@ + c.clip@ + "` (WER "@ + c.wer@ + "%): "@ + words::trimmed(
            c.text@,
        ) + "\n"@,
        factor_row(r, c) == "| "@ + r.label@ + " | "@ + c.clip@ + " | "@ + c.audio@ + "s | "@
            + c.median@ + "ms | "@ + c.p95@ + "ms | "@ + c.rtf@ + "x | "@ + c.wer@ + "% |\n"@,
        ep_clip(c) == "  "@ + numbers::flush_left(c.clip@, 6) + " "@ + numbers::flush_right(
            c.audio@,
            5,
        ) + "s audio → "@ + numbers::flush_right(c.median_fine@, 7) + "ms  ("@
            + numbers::flush_right(c.rtf_fine@, 5) + "x realtime, WER "@ + c.wer@
            + "%)\n         “"@ + words::trimmed(c.text@) + "”\n"@,
        verdict_line(r, c) == "  "@ + numbers::flush_left(r.label@, 18) + " 6s tail "@
            + numbers::flush_right(c.median@, 6) + "ms  WER "@ + numbers::flush_right(c.wer@, 3)
            + "%   "@ + verdict(c) + "\n"@,
        winner_line(r, c) == "\n  Winner: "@ + r.label@ + " at "@ + c.median@
            + "ms for a 6s segment.\n"@ + conclusion(c),
{
}

/// What the lines of a provider hold: its label, the medians of the four clips in their order, its
/// peak of memory and its time to load; of one that failed, that it did.
pub proof fn law_what_the_lines_of_a_provider_hold(r: EpRow, e: String)
    ensures
        ep_heading(r) == "\n"@ + r.label@ + " — load "@ + r.load@ + "ms, peak RSS "@ + r.rss@
            + "MB\n"@,
        times_row(r) == "| "@ + r.label@ + " | "@ + cell(r, "short"@, "ms"@) + " | "@ + cell(
            r,
            "mid"@,
            "ms"@,
        ) + " | "@ + cell(r, "long"@, "ms"@) + " | "@ + cell(r, "xlong"@, "ms"@) + " | "@ + r.rss@
            + "MB | "@ + r.load@ + "ms |\n"@,
        failed_row(r, e) == "| "@ + r.label@ + " | \\- | \\- | \\- | \\- | \\- | **failed**: "@ + e@
            + " |\n"@,
        failed_line(r) == "  "@ + numbers::flush_left(r.label@, 18) + " "@ + numbers::flush_right(
            "failed"@,
            8,
        ) + "\n"@,
        measured_line(r) == "  "@ + numbers::flush_left(r.label@, 18) + " "@ + numbers::flush_right(
            cell(r, "short"@, ""@),
            8,
        ) + " "@ + numbers::flush_right(cell(r, "mid"@, ""@), 8) + " "@ + numbers::flush_right(
            cell(r, "long"@, ""@),
            8,
        ) + " "@ + numbers::flush_right(cell(r, "xlong"@, ""@), 8) + " "@ + numbers::flush_right(
            r.rss@,
            7,
        ) + "MB "@ + numbers::flush_right(r.load@, 7) + "ms\n"@,
{
}

/// What the summary holds, from top to bottom: the head, a line for every provider, and the verdict;
/// the verdict has a line for every provider that is ranked, the fastest first, and names the winner.
pub proof fn law_what_the_summary_holds(rows: Seq<EpRow>, i: int)
    ensures
        summary(rows) == table_head(headers_of(rows)) + flat(summary_lines(rows))
            + "\n=== Verdict ===\n\n"@ + judgement(rows, ranking(rows)),
        ranking(rows).len() == 0 ==> judgement(rows, ranking(rows))
            == "  No execution provider completed. Fall back to whisper-rs.\n"@,
        ranking(rows).len() > 0 ==> judgement(rows, ranking(rows)) == flat(
            verdict_lines(rows, ranking(rows)),
        ) + winner_line(
            rows[best(rows, ranking(rows)).row as int],
            rows[best(rows, ranking(rows)).row as int].clips@[best(rows, ranking(rows)).clip as int],
        ),
        verdict_lines(rows, ranking(rows)).len() == ranking(rows).len(),
        0 <= i < ranking(rows).len() ==> verdict_lines(rows, ranking(rows))[i] == verdict_line(
            rows[ranking(rows)[i].row as int],
            rows[ranking(rows)[i].row as int].clips@[ranking(rows)[i].clip as int],
        ),
{
}

/// Where every output is wrong, the fastest of them is named all the same.
pub proof fn law_the_fastest_is_named_where_all_are_wrong(rows: Seq<EpRow>)
    requires
        ranking(rows).len() > 0,
        forall|i: int|
            0 <= i < ranking(rows).len() ==> clip_of(rows, #[trigger] ranking(rows)[i]).wrong(),
    ensures
        best(rows, ranking(rows)) == ranking(rows)[0],
{
    lemma_none_right(rows, ranking(rows), 0);
}

proof fn lemma_none_right(rows: Seq<EpRow>, ranked: Seq<Standing>, from: int)
    requires
        0 <= from,
        forall|i: int| 0 <= i < ranked.len() ==> clip_of(rows, #[trigger] ranked[i]).wrong(),
    ensures
        right_from(rows, ranked, from) is None,
    decreases ranked.len() - from,
{
    if from < ranked.len() {
        assert(clip_of(rows, ranked[from]).wrong());
        lemma_none_right(rows, ranked, from + 1);
    }
}

/// What the report holds, from top to bottom, with the machine it ran on where that is known.
pub proof fn law_what_the_report_holds(machine: Seq<char>, rows: Seq<EpRow>, iters: u64)
    ensures
        report(Some(machine), rows, iters) == opening(words::trimmed(machine), iters) + times_head(
            headers_of(rows),
        ) + flat(times_rows(rows)) + FACTORS@ + flat(all_factor_rows(rows)) + TRANSCRIPTS@ + flat(
            all_transcripts(rows),
        ) + CLOSING@,
        report(None, rows, iters) == opening("unknown"@, iters) + times_head(headers_of(rows)) + flat(
            times_rows(rows),
        ) + FACTORS@ + flat(all_factor_rows(rows)) + TRANSCRIPTS@ + flat(all_transcripts(rows))
            + CLOSING@,
        headers_of(rows) == seq![
            header(rows, "short"@),
            header(rows, "mid"@),
            header(rows, "long"@),
            header(rows, "xlong"@),
        ],
{
}

/// A column is headed by how long its clip lasts, as the first provider with any clip has it, and by
/// the name of the clip where that is not known.
pub proof fn law_what_a_column_is_headed_by(rows: Seq<EpRow>, name: Seq<char>, k: int)
    ensures
        (forall|i: int| 0 <= i < rows.len() ==> (#[trigger] rows[i]).clips@.len() == 0) ==> header(
            rows,
            name,
        ) == name,
        0 <= k < rows.len() && rows[k].clips@.len() > 0 && (forall|i: int|
            0 <= i < k ==> (#[trigger] rows[i]).clips@.len() == 0) ==> header(rows, name) == (
        match find(rows[k].clips@, name) {
            Some(i) => rows[k].clips@[i].audio@ + seq!['s'],
            None => name,
        }),
{
    reveal_strlit("s");
    assert("s"@ =~= seq!['s']);
    lemma_sample(rows, 0);
    if 0 <= k < rows.len() && rows[k].clips@.len() > 0 && (forall|i: int|
        0 <= i < k ==> (#[trigger] rows[i]).clips@.len() == 0) {
        let found = sample_from(rows, 0)->0;
        assert(sample_from(rows, 0) is Some);
        if found < k {
            assert(rows[found].clips@.len() == 0);
        } else if k < found {
            assert(rows[k].clips@.len() == 0);
        }
    }
}

proof fn lemma_sample(rows: Seq<EpRow>, from: int)
    requires
        0 <= from,
    ensures
        match sample_from(rows, from) {
            Some(i) => from <= i < rows.len() && rows[i].clips@.len() > 0 && forall|k: int|
                from <= k < i ==> (#[trigger] rows[k]).clips@.len() == 0,
            None => forall|k: int| from <= k < rows.len() ==> (#[trigger] rows[k]).clips@.len() == 0,
        },
    decreases rows.len() - from,
{
    if from < rows.len() && rows[from].clips@.len() == 0 {
        lemma_sample(rows, from + 1);
    }
}

/// The heads of the tables name the four clips in their order, and the opening of the report names the
/// machine as it was given.
pub proof fn law_what_the_heads_hold(h: Seq<Seq<char>>, machine: Seq<char>, other: Seq<char>, iters: u64)
    requires
        h.len() == 4,
    ensures
        times_head(h) == "## Decode time by clip length (median ms)\n\n| Provider | "@ + h[0] + " | "@
            + h[1] + " | "@ + h[2] + " | "@ + h[3]
            + " | Peak RSS | Model load |\n|---|---|---|---|---|---|---|\n"@,
        table_head(h) == "=== Decode time by clip length (median ms) ===\n\n  "@
            + numbers::flush_left("provider"@, 18) + " "@ + numbers::flush_right(h[0], 8) + " "@
            + numbers::flush_right(h[1], 8) + " "@ + numbers::flush_right(h[2], 8) + " "@
            + numbers::flush_right(h[3], 8) + " "@ + numbers::flush_right("peak RSS"@, 9) + " "@
            + numbers::flush_right("load"@, 8) + "\n  "@ + numbers::run_of('-', 72) + "\n"@,
        ({
            let front = "# M0 results\n\nMachine: "@;
            &&& opening(machine, iters).take((front.len() + machine.len()) as int) == front + machine
            &&& opening(machine, iters).skip((front.len() + machine.len()) as int) == opening(
                other,
                iters,
            ).skip((front.len() + other.len()) as int)
        }),
{
    let front = "# M0 results\n\nMachine: "@;
    let x = opening(machine, iters);
    let y = opening(other, iters);
    assert(x.take((front.len() + machine.len()) as int) =~= front + machine);
    assert(x.skip((front.len() + machine.len()) as int) =~= y.skip(
        (front.len() + other.len()) as int,
    ));
}

} // verus!
