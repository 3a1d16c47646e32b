//! Model downloads: where a file comes from and goes to, what is reported on the way, and which
//! downloads are in flight.
//!
//! A download is written to a partial file that is renamed at the end, so that an interrupted
//! one can never be mistaken for a complete one.

use vstd::prelude::*;

use crate::chars::same_str;
use crate::models;
use crate::models::{models_dir, path_for, spec, ModelSpec, BASE_URL};
use crate::paths;
use crate::paths::{join, with_extension};

verus! {

/// Bytes in a megabyte, as progress counts them.
pub const MEGABYTE: u64 = 1_048_576;

/// What the picker is told of a download.
#[derive(Debug, Clone)]
pub struct Progress {
    pub id: String,
    pub received_mb: u64,
    pub total_mb: u64,
    pub done: bool,
    pub error: Option<String>,
}

impl Progress {
    /// A report without an error.
    pub open spec fn tells(self, id: Seq<char>, received_mb: int, total_mb: int, done: bool) -> bool {
        &&& self.id@ == id
        &&& self.received_mb == received_mb
        &&& self.total_mb == total_mb
        &&& self.done == done
        &&& self.error is None
    }
}

/// The report of a download that failed.
pub fn failure(id: &str, error: &str) -> (p: Progress)
    ensures
        p.id@ == id@,
        p.received_mb == 0,
        p.total_mb == 0,
        !p.done,
        p.error matches Some(e) && e@ == error@,
{
    Progress {
        id: id.to_owned(),
        received_mb: 0,
        total_mb: 0,
        done: false,
        error: Some(error.to_owned()),
    }
}

/// An error with what was being done when it came.
pub open spec fn explained(doing: Seq<char>, error: Seq<char>) -> Seq<char> {
    doing + ": "@ + error
}

/// An error with what was being done when it came.
pub fn explain(doing: &str, error: &str) -> (s: String)
    ensures
        s@ == explained(doing@, error@),
{
    let mut s: String = doing.to_owned();
    s.append(": ");
    s.append(error);
    s
}

/// The answer to a request for a model that is not on offer.
pub open spec fn unknown(id: Seq<char>) -> Seq<char> {
    "unknown model: "@ + id
}

fn unknown_model(id: &str) -> (s: String)
    ensures
        s@ == unknown(id@),
{
    let mut s: String = "unknown model: ".to_owned();
    s.append(id);
    s
}

/// Where a download comes from and goes to.
#[derive(Debug, Clone)]
pub struct Plan {
    pub id: String,
    pub dir: String,
    pub dest: String,
    pub partial: String,
    pub url: String,
}

impl Plan {
    /// The plan that fetches `m` below `home`.
    pub open spec fn fetches(self, home: Seq<char>, m: ModelSpec) -> bool {
        &&& self.id@ == m.id@
        &&& self.dir@ == models::shelf(home)
        &&& self.dest@ == paths::below(models::shelf(home), m.file@)
        &&& self.partial@ == paths::below(
            models::shelf(home),
            paths::with_ending(m.file@, "partial"@),
        )
        &&& self.url@ == BASE_URL@ + "/"@ + m.file@
    }
}

/// How the download of the model `id` goes, or why there is none.
pub fn download(home: &str, id: &str) -> (plan: Result<Plan, String>)
    ensures
        match models::model(id@) {
            Some(m) => plan matches Ok(p) && p.fetches(home@, m) && p.id@ == id@,
            None => plan matches Err(e) && e@ == unknown(id@),
        },
{
    proof {
        models::law_models_are_found_by_their_ids(id@);
    }
    match spec(id) {
        None => Err(unknown_model(id)),
        Some(m) => {
            let dir: String = models_dir(home);
            let dest: String = join(dir.as_str(), m.file);
            let partial: String = join(dir.as_str(), with_extension(m.file, "partial").as_str());
            let mut url: String = BASE_URL.to_owned();
            url.append("/");
            url.append(m.file);
            Ok(Plan { id: id.to_owned(), dir, dest, partial, url })
        },
    }
}

/// The answer to a server that refuses.
pub open spec fn refused(url: Seq<char>, status: Seq<char>) -> Seq<char> {
    url + " returned HTTP "@ + status
}

/// A download under way: how much has come and how much of it was reported.
#[derive(Debug)]
pub struct Transfer {
    plan: Plan,
    total_mb: u64,
    received: u64,
    reported_mb: u64,
}

/// What happened last.
#[derive(Debug, Clone, Copy)]
pub enum TransferEvent {
    /// The cancel flag was looked at.
    Polled { cancelled: bool },
    /// The connection gave this many bytes; none is the end.
    Got { bytes: usize },
}

/// What to do next.
#[derive(Debug)]
pub enum TransferAction {
    /// Remove the partial file and fail with the error.
    Discard { partial: String, error: String },
    /// Read from the connection.
    Read,
    /// Append what was read to the partial file, send the report, and poll again.
    Write { report: Option<Progress> },
    /// Close the partial file, rename it, and send the report.
    Finish { partial: String, dest: String, report: Progress },
}

impl Transfer {
    pub closed spec fn plan(&self) -> Plan {
        self.plan
    }

    /// How many megabytes the server announced.
    pub closed spec fn total_mb(&self) -> int {
        self.total_mb as int
    }

    /// How many bytes have come.
    pub closed spec fn received(&self) -> int {
        self.received as int
    }

    /// Every whole megabyte that has come was reported.
    pub closed spec fn wf(&self) -> bool {
        self.reported_mb == self.received / MEGABYTE
    }

    /// The bytes that have come so far.
    pub fn received_bytes(&self) -> (n: u64)
        ensures
            n == self.received(),
    {
        self.received
    }

    /// What the server's answer means: a transfer with nothing received yet, or the refusal. A
    /// server that announces no length counts as announcing none.
    pub fn answered(plan: Plan, success: bool, status: &str, length: Option<u64>) -> (r: Result<
        Transfer,
        String,
    >)
        ensures
            !success ==> (r matches Err(e) && e@ == refused(plan.url@, status@)),
            success ==> (r matches Ok(t) && t.wf() && t.plan() == plan && t.received() == 0
                && t.total_mb() == (match length {
                Some(n) => n / MEGABYTE,
                None => 0,
            })),
    {
        if !success {
            let mut e: String = plan.url.clone();
            e.append(" returned HTTP ");
            e.append(status);
            return Err(e);
        }
        let total: u64 = match length {
            Some(n) => n,
            None => 0,
        };
        Ok(Transfer { plan, total_mb: total / MEGABYTE, received: 0, reported_mb: 0 })
    }

    /// The report for `received_mb` megabytes.
    fn report(&self, received_mb: u64, done: bool) -> (p: Progress)
        ensures
            p.tells(self.plan().id@, received_mb as int, self.total_mb(), done),
    {
        Progress {
            id: self.plan.id.clone(),
            received_mb,
            total_mb: self.total_mb,
            done,
            error: None,
        }
    }

    /// Takes what happened and says what to do next.
    ///
    /// Progress is reported per megabyte rather than per chunk: each report costs a round trip
    /// and nobody can use a finer grain.
    pub fn next(&mut self, event: TransferEvent) -> (action: TransferAction)
        requires
            old(self).wf(),
            event matches TransferEvent::Got { bytes } ==> old(self).received() + bytes <= u64::MAX,
        ensures
            final(self).wf(),
            final(self).plan() == old(self).plan(),
            final(self).total_mb() == old(self).total_mb(),
            match event {
                TransferEvent::Polled { cancelled } => {
                    &&& final(self).received() == old(self).received()
                    &&& cancelled ==> (action matches TransferAction::Discard { partial, error }
                        && partial@ == old(self).plan().partial@ && error@ == "cancelled"@)
                    &&& !cancelled ==> action is Read
                },
                TransferEvent::Got { bytes } => {
                    &&& final(self).received() == old(self).received() + bytes
                    &&& bytes == 0 ==> (action matches TransferAction::Finish {
                        partial,
                        dest,
                        report,
                    } && partial@ == old(self).plan().partial@ && dest@ == old(self).plan().dest@
                        && report.tells(
                        old(self).plan().id@,
                        old(self).total_mb(),
                        old(self).total_mb(),
                        true,
                    ))
                    &&& bytes > 0 ==> (action matches TransferAction::Write { report } && reported(
                        *old(self),
                        bytes as int,
                        report,
                    ))
                },
            },
            moves_on(*old(self), event, action),
    {
        match event {
            TransferEvent::Polled { cancelled } => if cancelled {
                TransferAction::Discard {
                    partial: self.plan.partial.clone(),
                    error: "cancelled".to_owned(),
                }
            } else {
                TransferAction::Read
            },
            TransferEvent::Got { bytes } => {
                if bytes == 0 {
                    return TransferAction::Finish {
                        partial: self.plan.partial.clone(),
                        dest: self.plan.dest.clone(),
                        report: self.report(self.total_mb, true),
                    };
                }
                self.received = self.received + bytes as u64;
                let received_mb: u64 = self.received / MEGABYTE;
                if received_mb > self.reported_mb {
                    self.reported_mb = received_mb;
                    TransferAction::Write { report: Some(self.report(received_mb, false)) }
                } else {
                    TransferAction::Write { report: None }
                }
            },
        }
    }
}

/// What a transfer does next: one that is called off is discarded, one that has ended is moved to
/// its place, and otherwise it goes on reading and writing.
pub open spec fn moves_on(before: Transfer, event: TransferEvent, action: TransferAction) -> bool {
    match event {
        TransferEvent::Polled { cancelled } => if cancelled {
            action matches TransferAction::Discard { partial, error } && partial@
                == before.plan().partial@ && error@ == "cancelled"@
        } else {
            action is Read
        },
        TransferEvent::Got { bytes } => if bytes == 0 {
            action matches TransferAction::Finish { partial, dest, report } && partial@
                == before.plan().partial@ && dest@ == before.plan().dest@ && report.tells(
                before.plan().id@,
                before.total_mb(),
                before.total_mb(),
                true,
            )
        } else {
            action matches TransferAction::Write { report } && reported(
                before,
                bytes as int,
                report,
            )
        },
    }
}

/// What is reported when `bytes` more come: the megabytes that have come by then, if that is
/// more than before, and otherwise nothing.
pub open spec fn reported(before: Transfer, bytes: int, report: Option<Progress>) -> bool {
    let had = before.received() / MEGABYTE as int;
    let has = (before.received() + bytes) / MEGABYTE as int;
    if has > had {
        report matches Some(p) && p.tells(before.plan().id@, has, before.total_mb(), false)
    } else {
        report is None
    }
}

/// The partial file of a model is never the file that counts as its download, nor that of any
/// other model.
pub proof fn law_a_partial_file_is_no_model(home: Seq<char>, i: int, j: int)
    requires
        0 <= i < models::models().len(),
        0 <= j < models::models().len(),
    ensures
        paths::below(
            models::shelf(home),
            paths::with_ending(models::models()[i].file@, "partial"@),
        ) != paths::below(models::shelf(home), models::models()[j].file@),
{
    reveal_strlit("partial");
    let all = models::models();
    reveal_strlit("ggml-tiny.bin");
    reveal_strlit("ggml-base.bin");
    reveal_strlit("ggml-small.bin");
    reveal_strlit("ggml-medium.bin");
    reveal_strlit("ggml-large-v3-turbo.bin");
    reveal_strlit("ggml-large-v3.bin");
    reveal_strlit("ggml-tiny.en.bin");
    reveal_strlit("ggml-base.en.bin");
    reveal_strlit("ggml-small.en.bin");
    reveal_strlit("ggml-medium.en.bin");
    reveal_strlit("ggml-base-q5_1.bin");
    reveal_strlit("ggml-small-q5_1.bin");
    reveal_strlit("ggml-large-v3-turbo-q5_0.bin");
    reveal_strlit("ggml-large-v3-q5_0.bin");
    assert(all[0].file@.len() == 13 && all[0].file@.last() == 'n' && all[0].file@[0] == 'g');
    assert(all[1].file@.len() == 13 && all[1].file@.last() == 'n' && all[1].file@[0] == 'g');
    assert(all[2].file@.len() == 14 && all[2].file@.last() == 'n' && all[2].file@[0] == 'g');
    assert(all[3].file@.len() == 15 && all[3].file@.last() == 'n' && all[3].file@[0] == 'g');
    assert(all[4].file@.len() == 23 && all[4].file@.last() == 'n' && all[4].file@[0] == 'g');
    assert(all[5].file@.len() == 17 && all[5].file@.last() == 'n' && all[5].file@[0] == 'g');
    assert(all[6].file@.len() == 16 && all[6].file@.last() == 'n' && all[6].file@[0] == 'g');
    assert(all[7].file@.len() == 16 && all[7].file@.last() == 'n' && all[7].file@[0] == 'g');
    assert(all[8].file@.len() == 17 && all[8].file@.last() == 'n' && all[8].file@[0] == 'g');
    assert(all[9].file@.len() == 18 && all[9].file@.last() == 'n' && all[9].file@[0] == 'g');
    assert(all[10].file@.len() == 18 && all[10].file@.last() == 'n' && all[10].file@[0] == 'g');
    assert(all[11].file@.len() == 19 && all[11].file@.last() == 'n' && all[11].file@[0] == 'g');
    assert(all[12].file@.len() == 28 && all[12].file@.last() == 'n' && all[12].file@[0] == 'g');
    assert(all[13].file@.len() == 22 && all[13].file@.last() == 'n' && all[13].file@[0] == 'g');
    assert(all[j].file@.last() == 'n' && all[j].file@[0] == 'g');
    let partial = paths::with_ending(all[i].file@, "partial"@);
    assert(partial.last() == 'l');
    let a = paths::below(models::shelf(home), partial);
    let b = paths::below(models::shelf(home), all[j].file@);
    assert(a.last() == 'l');
    assert(b.last() == 'n');
}

/// Every download comes from the one host of the models.
pub proof fn law_downloads_come_from_one_host(p: Plan, home: Seq<char>, m: ModelSpec)
    requires
        p.fetches(home, m),
    ensures
        p.url@.len() >= BASE_URL@.len(),
        p.url@.take(BASE_URL@.len() as int) == BASE_URL@,
        BASE_URL@.take(23) == "https://huggingface.co/"@,
{
    reveal_strlit("https://huggingface.co/ggerganov/whisper.cpp/resolve/main");
    reveal_strlit("https://huggingface.co/");
    assert(p.url@.take(BASE_URL@.len() as int) =~= BASE_URL@);
    assert(BASE_URL@.take(23) =~= "https://huggingface.co/"@);
}

/// The bytes of some chunks together.
pub open spec fn total(chunks: Seq<usize>) -> int
    decreases chunks.len(),
{
    if chunks.len() == 0 {
        0
    } else {
        chunks[0] + total(chunks.drop_first())
    }
}

/// The megabytes that are reported while some chunks come, one after another, when `received`
/// bytes have come before.
pub open spec fn reports(received: int, chunks: Seq<usize>) -> Seq<int>
    decreases chunks.len(),
{
    if chunks.len() == 0 {
        seq![]
    } else {
        let now = received + chunks[0];
        let later = reports(now, chunks.drop_first());
        if now / MEGABYTE as int > received / MEGABYTE as int {
            seq![now / MEGABYTE as int] + later
        } else {
            later
        }
    }
}

/// However a download is cut into chunks, its reports rise, no megabyte is reported twice, and
/// the last report is that of everything that came.
pub proof fn law_reports_rise(received: int, chunks: Seq<usize>)
    requires
        received >= 0,
    ensures
        ({
            let sent = reports(received, chunks);
            let before = received / MEGABYTE as int;
            let after = (received + total(chunks)) / MEGABYTE as int;
            &&& forall|i: int| 0 <= i < sent.len() ==> before < #[trigger] sent[i] <= after
            &&& forall|i: int, j: int| 0 <= i < j < sent.len() ==> sent[i] < sent[j]
            &&& after > before ==> sent.len() > 0 && sent.last() == after
        }),
        total(chunks) >= 0,
    decreases chunks.len(),
{
    if chunks.len() > 0 {
        let now = received + chunks[0];
        let rest = chunks.drop_first();
        law_reports_rise(now, rest);
        let later = reports(now, rest);
        let sent = reports(received, chunks);
        assert(received + total(chunks) == now + total(rest));
        if now / MEGABYTE as int > received / MEGABYTE as int {
            assert forall|i: int| 0 < i < sent.len() implies sent[i] == later[i - 1] by {}
            if later.len() > 0 {
                assert(sent.last() == later.last());
            }
        }
    }
}

/// One download in flight, and whether it was told to stop.
#[derive(Debug)]
struct InFlight {
    id: String,
    cancelled: bool,
}

/// The downloads in flight: at most one for each model, because two that write the same partial
/// file would leave a corrupt model of the right size.
#[derive(Debug)]
pub struct Downloads {
    entries: Vec<InFlight>,
}

spec fn listed(entries: Seq<InFlight>, id: Seq<char>) -> bool {
    exists|i: int| 0 <= i < entries.len() && (#[trigger] entries[i]).id@ == id
}

spec fn flag_of(entries: Seq<InFlight>, id: Seq<char>) -> bool {
    entries[choose|i: int| 0 <= i < entries.len() && (#[trigger] entries[i]).id@ == id].cancelled
}

spec fn flags(entries: Seq<InFlight>) -> Map<Seq<char>, bool> {
    Map::new(|id: Seq<char>| listed(entries, id), |id: Seq<char>| flag_of(entries, id))
}

spec fn no_id_twice(entries: Seq<InFlight>) -> bool {
    forall|i: int, j: int|
        0 <= i < j < entries.len() ==> (#[trigger] entries[i]).id@ != (#[trigger] entries[j]).id@
}

impl View for Downloads {
    type V = Map<Seq<char>, bool>;

    /// For each model that is being downloaded, whether its download was told to stop.
    closed spec fn view(&self) -> Map<Seq<char>, bool> {
        flags(self.entries@)
    }
}

impl Downloads {
    pub closed spec fn wf(&self) -> bool {
        no_id_twice(self.entries@)
    }

    /// No download is in flight.
    pub fn new() -> (d: Downloads)
        ensures
            d.wf(),
            d@ == Map::<Seq<char>, bool>::empty(),
    {
        let d: Downloads = Downloads { entries: Vec::new() };
        assert(d@ =~= Map::<Seq<char>, bool>::empty());
        d
    }

    /// Where the download of `id` stands in the list.
    fn position(&self, id: &str) -> (p: Option<usize>)
        requires
            self.wf(),
        ensures
            match p {
                Some(i) => i < self.entries@.len() && self.entries@[i as int].id@ == id@
                    && self@.contains_key(id@) && self@[id@] == self.entries@[i as int].cancelled,
                None => !self@.contains_key(id@),
            },
    {
        let mut i: usize = 0;
        while i < self.entries.len()
            invariant
                i <= self.entries@.len(),
                self.wf(),
                forall|j: int| 0 <= j < i ==> (#[trigger] self.entries@[j]).id@ != id@,
            decreases self.entries@.len() - i,
        {
            if same_str(self.entries[i].id.as_str(), id) {
                assert(self.entries@[i as int].id@ == id@);
                return Some(i);
            }
            i += 1;
        }
        None
    }

    /// Enters a download of `id`, unless one is in flight already. Says whether it was entered.
    pub fn begin(&mut self, id: &str) -> (entered: bool)
        requires
            old(self).wf(),
        ensures
            final(self).wf(),
            entered == !old(self)@.contains_key(id@),
            final(self)@ == if entered {
                old(self)@.insert(id@, false)
            } else {
                old(self)@
            },
    {
        if self.position(id).is_some() {
            return false;
        }
        let ghost before = self.entries@;
        self.entries.push(InFlight { id: id.to_owned(), cancelled: false });
        proof {
            let after = self.entries@;
            let n = before.len() as int;
            assert(after[n].id@ == id@);
            assert forall|k: Seq<char>| listed(after, k) == (listed(before, k) || k == id@) by {
                if listed(before, k) {
                    let i = choose|i: int| 0 <= i < before.len() && (#[trigger] before[i]).id@ == k;
                    assert(after[i].id@ == k);
                }
                if listed(after, k) && k != id@ {
                    let i = choose|i: int| 0 <= i < after.len() && (#[trigger] after[i]).id@ == k;
                    assert(before[i].id@ == k);
                }
            }
            assert forall|i: int, j: int| 0 <= i < j < after.len() implies (#[trigger] after[i]).id@
                != (#[trigger] after[j]).id@ by {
                assert(after[i] == before[i]);
                if j < n {
                    assert(after[j] == before[j]);
                } else {
                    assert(!flags(before).contains_key(id@));
                    assert(!listed(before, id@));
                }
            }
            assert forall|k: Seq<char>| #[trigger] flags(after).contains_key(k) implies flags(after)[k]
                == flags(before).insert(id@, false)[k] by {
                let i = choose|i: int| 0 <= i < after.len() && (#[trigger] after[i]).id@ == k;
                lemma_flag(after, i);
                if i < n {
                    assert(after[i] == before[i]);
                    lemma_flag(before, i);
                }
            }
            assert(flags(after) =~= flags(before).insert(id@, false));
        }
        true
    }

    /// Tells the download of `id` to stop, if one is in flight.
    pub fn cancel(&mut self, id: &str)
        requires
            old(self).wf(),
        ensures
            final(self).wf(),
            final(self)@ == if old(self)@.contains_key(id@) {
                old(self)@.insert(id@, true)
            } else {
                old(self)@
            },
    {
        if let Some(p) = self.position(id) {
            let ghost before = self.entries@;
            let told: InFlight = InFlight { id: id.to_owned(), cancelled: true };
            self.entries.set(p, told);
            proof {
                let after = self.entries@;
                assert forall|i: int| 0 <= i < after.len() implies (#[trigger] after[i]).id@
                    == before[i].id@ by {}
                assert forall|i: int, j: int| 0 <= i < j < after.len() implies (
                #[trigger] after[i]).id@ != (#[trigger] after[j]).id@ by {
                    assert(before[i].id@ != before[j].id@);
                }
                assert forall|k: Seq<char>| listed(after, k) == listed(before, k) by {
                    if listed(before, k) {
                        let i = choose|i: int|
                            0 <= i < before.len() && (#[trigger] before[i]).id@ == k;
                        assert(after[i].id@ == k);
                    }
                    if listed(after, k) {
                        let i = choose|i: int|
                            0 <= i < after.len() && (#[trigger] after[i]).id@ == k;
                        assert(before[i].id@ == k);
                    }
                }
                assert forall|k: Seq<char>| #[trigger]
                    flags(after).contains_key(k) implies flags(after)[k] == flags(before).insert(
                    id@,
                    true,
                )[k] by {
                    let i = choose|i: int| 0 <= i < after.len() && (#[trigger] after[i]).id@ == k;
                    lemma_flag(after, i);
                    lemma_flag(before, i);
                    if i != p {
                        assert(before[i].id@ != before[p as int].id@);
                    }
                }
                assert(flags(after) =~= flags(before).insert(id@, true));
            }
        }
    }

    /// Whether the download of `id` was told to stop.
    pub fn cancelled(&self, id: &str) -> (b: bool)
        requires
            self.wf(),
        ensures
            b == (self@.contains_key(id@) && self@[id@]),
    {
        match self.position(id) {
            Some(p) => self.entries[p].cancelled,
            None => false,
        }
    }

    /// Takes the download of `id` off the list.
    pub fn end(&mut self, id: &str)
        requires
            old(self).wf(),
        ensures
            final(self).wf(),
            final(self)@ == old(self)@.remove(id@),
    {
        match self.position(id) {
            Some(p) => {
                let ghost before = self.entries@;
                let _ = self.entries.remove(p);
                proof {
                    let after = self.entries@;
                    assert forall|i: int| 0 <= i < after.len() implies #[trigger] after[i]
                        == before[if i < p {
                        i
                    } else {
                        i + 1
                    }] by {}
                    assert forall|i: int, j: int| 0 <= i < j < after.len() implies (
                    #[trigger] after[i]).id@ != (#[trigger] after[j]).id@ by {}
                    assert forall|k: Seq<char>| listed(after, k) == (listed(before, k) && k != id@) by {
                        if listed(before, k) && k != id@ {
                            let i = choose|i: int|
                                0 <= i < before.len() && (#[trigger] before[i]).id@ == k;
                            if i < p {
                                assert(after[i].id@ == k);
                            } else {
                                assert(after[i - 1].id@ == k);
                            }
                        }
                        if listed(after, k) {
                            let i = choose|i: int|
                                0 <= i < after.len() && (#[trigger] after[i]).id@ == k;
                            if i < p {
                                assert(before[i].id@ == k);
                            } else {
                                assert(before[i + 1].id@ == k);
                            }
                        }
                    }
                    assert forall|k: Seq<char>| #[trigger]
                        flags(after).contains_key(k) implies flags(after)[k] == flags(before)[k] by {
                        let i = choose|i: int|
                            0 <= i < after.len() && (#[trigger] after[i]).id@ == k;
                        lemma_flag(after, i);
                        lemma_flag(before, if i < p {
                            i
                        } else {
                            i + 1
                        });
                    }
                    assert(flags(after) =~= flags(before).remove(id@));
                }
            },
            None => {
                assert(self@ =~= self@.remove(id@));
            },
        }
    }
}

proof fn lemma_flag(entries: Seq<InFlight>, i: int)
    requires
        no_id_twice(entries),
        0 <= i < entries.len(),
    ensures
        flags(entries).contains_key(entries[i].id@),
        flags(entries)[entries[i].id@] == entries[i].cancelled,
{
    let id = entries[i].id@;
    assert(listed(entries, id));
    let k = choose|k: int| 0 <= k < entries.len() && (#[trigger] entries[k]).id@ == id;
    if k < i {
        assert(entries[k].id@ != entries[i].id@);
    } else if i < k {
        assert(entries[i].id@ != entries[k].id@);
    }
}

/// The answer to a request to delete the model in use.
pub open spec fn in_use() -> Seq<char> {
    "That model is in use. Pick a different one first."@
}

/// The file to remove so that the model `id` is deleted, or why there is none.
pub fn delete(home: &str, id: &str) -> (r: Result<String, String>)
    ensures
        match models::place(home@, id@) {
            Some(path) => r matches Ok(p) && p@ == path,
            None => r matches Err(e) && e@ == unknown(id@),
        },
{
    match path_for(home, id) {
        Some(path) => Ok(path),
        None => Err(unknown_model(id)),
    }
}

/// Like `delete`, but refuses the model that is in use.
pub fn delete_model(home: &str, active: &str, id: &str) -> (r: Result<String, String>)
    ensures
        active@ == id@ ==> (r matches Err(e) && e@ == in_use()),
        active@ != id@ ==> match models::place(home@, id@) {
            Some(path) => r matches Ok(p) && p@ == path,
            None => r matches Err(e) && e@ == unknown(id@),
        },
{
    if same_str(active, id) {
        return Err("That model is in use. Pick a different one first.".to_owned());
    }
    delete(home, id)
}

/// An error tells what was being done, a colon, a space, and what went wrong.
pub proof fn law_what_an_error_tells(doing: Seq<char>, error: Seq<char>)
    ensures
        explained(doing, error) == doing + seq![':', ' '] + error,
        unknown(doing) == "unknown model: "@ + doing,
        refused(doing, error) == doing + " returned HTTP "@ + error,
        in_use() == "That model is in use. Pick a different one first."@,
{
    reveal_strlit(": ");
    assert(": "@ =~= seq![':', ' ']);
}

/// A model is fetched from its own address into a partial file beside where it will stand, which
/// differs from it in nothing but the ending.
pub proof fn law_where_a_download_goes(p: Plan, home: Seq<char>, i: int, stem: Seq<char>)
    requires
        0 <= i < models::models().len(),
        p.fetches(home, models::models()[i]),
        home.len() > 0,
        home.last() != '/',
        stem == seq!['g', 'g', 'm', 'l', '-'] + models::models()[i].id@,
    ensures
        p.id@ == models::models()[i].id@,
        p.url@ == "https://huggingface.co/ggerganov/whisper.cpp/resolve/main"@ + "/"@ + stem
            + seq!['.', 'b', 'i', 'n'],
        p.dir@ == home + "/Library/Application Support/whisper-lite/models"@,
        p.dest@ == p.dir@ + seq!['/'] + stem + seq!['.', 'b', 'i', 'n'],
        p.partial@ == p.dir@ + seq!['/'] + stem + seq!['.'] + "partial"@,
{
    let m = models::models()[i];
    models::law_each_file_is_named_after_its_model(i);
    models::law_where_each_model_lives(home, i);
    reveal_strlit("/Library/Application Support/whisper-lite/models");
    let ending = seq!['b', 'i', 'n'];
    assert(m.file@ =~= stem + seq!['.'] + ending);
    paths::law_only_the_ending_is_replaced(stem, ending, "partial"@);
    assert(p.dir@.last() == 's');
    let other = stem + seq!['.'] + "partial"@;
    assert(other[0] == 'g');
    assert(p.url@ =~= "https://huggingface.co/ggerganov/whisper.cpp/resolve/main"@ + "/"@ + stem
        + seq!['.', 'b', 'i', 'n']);
    assert(p.dest@ =~= p.dir@ + seq!['/'] + stem + seq!['.', 'b', 'i', 'n']);
    assert(p.partial@ =~= p.dir@ + seq!['/'] + stem + seq!['.'] + "partial"@);
}

/// What is reported of a transfer: each time another whole megabyte of 1048576 bytes is there, how
/// many, out of how many, for which model; and otherwise nothing.
pub proof fn law_what_is_reported(before: Transfer, bytes: int, report: Option<Progress>)
    requires
        reported(before, bytes, report),
    ensures
        report is Some <==> (before.received() + bytes) / 1048576 > before.received() / 1048576,
        report matches Some(p) ==> p.id@ == before.plan().id@ && p.received_mb == (before.received()
            + bytes) / 1048576 && p.total_mb == before.total_mb() && !p.done && p.error is None,
{
}

/// A model appears in its place only when all of it was read, and a download that is called off leaves
/// nothing: the partial file is what is moved, and what is discarded. Nothing is read past a cancel.
pub proof fn law_only_a_whole_download_becomes_a_model(
    before: Transfer,
    event: TransferEvent,
    action: TransferAction,
)
    requires
        moves_on(before, event, action),
    ensures
        action is Finish <==> event == (TransferEvent::Got { bytes: 0 }),
        action is Discard <==> event == (TransferEvent::Polled { cancelled: true }),
        action is Read <==> event == (TransferEvent::Polled { cancelled: false }),
        action matches TransferAction::Finish { partial, dest, report } ==> partial@
            == before.plan().partial@ && dest@ == before.plan().dest@ && report.done && report.id@
            == before.plan().id@ && report.received_mb == before.total_mb() && report.total_mb
            == before.total_mb() && report.error is None,
        action matches TransferAction::Discard { partial, error } ==> partial@
            == before.plan().partial@ && error@ == "cancelled"@,
        action matches TransferAction::Write { report } ==> (report is Some <==> (before.received()
            + event->bytes) / 1048576 > before.received() / 1048576),
{
}

} // verus!
