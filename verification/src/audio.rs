//! Microphone capture: which device, how much, and what was captured.
//!
//! The stream is built at launch and started on the hotkey, so that the microphone indicator is
//! off while idle and no first word is lost to opening the device.

use vstd::prelude::*;

use crate::chars::same_str;
use crate::words;

verus! {

/// What speech models expect: samples per second, one channel.
pub const TARGET_RATE: u32 = 16_000;

/// Hard cap on a single dictation, in seconds: a guard against a release that is never seen.
pub const MAX_SECONDS: u64 = 120;

/// What a list of optional names holds.
pub open spec fn name_views(v: Seq<Option<String>>) -> Seq<Option<Seq<char>>> {
    Seq::new(
        v.len(),
        |i: int|
            match v[i] {
                Some(s) => Some(s@),
                None => None,
            },
    )
}

/// The names that could be read, in order.
pub open spec fn readable(names: Seq<Option<Seq<char>>>) -> Seq<Seq<char>>
    decreases names.len(),
{
    if names.len() == 0 {
        seq![]
    } else {
        match names.last() {
            Some(n) => readable(names.drop_last()).push(n),
            None => readable(names.drop_last()),
        }
    }
}

/// The devices for the picker: those of `names` whose name could be read.
pub fn input_devices(names: &[Option<String>]) -> (out: Vec<String>)
    ensures
        words::strings(out@) == readable(name_views(names@)),
{
    let mut out: Vec<String> = Vec::new();
    let ghost all = name_views(names@);
    let mut i: usize = 0;
    assert(words::strings(out@) =~= readable(all.take(0)));
    while i < names.len()
        invariant
            i <= names@.len(),
            all == name_views(names@),
            words::strings(out@) == readable(all.take(i as int)),
        decreases names@.len() - i,
    {
        assert(all.take(i + 1).drop_last() == all.take(i as int));
        let ghost before = out@;
        match &names[i] {
            Some(n) => {
                out.push(n.clone());
                assert(words::strings(out@) =~= words::strings(before).push(n@));
            },
            None => {},
        }
        i += 1;
    }
    assert(all.take(i as int) == all);
    out
}

/// Which device to open.
#[derive(Debug, Clone, Copy, PartialEq, Eq, Structural)]
pub enum Device {
    /// The device at this place in the list.
    Listed(usize),
    SystemDefault,
}

/// The first device with a name, from a place on.
pub open spec fn first_named(names: Seq<Option<Seq<char>>>, wanted: Seq<char>, from: int) -> Option<
    int,
>
    decreases names.len() - from,
{
    if from < 0 || from >= names.len() {
        None
    } else if names[from] == Some(wanted) {
        Some(from)
    } else {
        first_named(names, wanted, from + 1)
    }
}

/// The device that a name asks for: an empty name asks for none.
pub open spec fn asked(names: Seq<Option<Seq<char>>>, wanted: Seq<char>) -> Option<int> {
    if wanted.len() == 0 {
        None
    } else {
        first_named(names, wanted, 0)
    }
}

/// The device to record from: the one named `wanted`, or the system default where the name is
/// empty or no longer there. `names` holds the names of the devices on offer, `None` where one
/// could not be read.
///
/// Falling back rather than failing is deliberate: a saved device disappears every time a headset
/// is unplugged.
pub fn choose_device(wanted: &str, names: &[Option<String>], has_default: bool) -> (r: Result<
    Device,
    String,
>)
    ensures
        match asked(name_views(names@), wanted@) {
            Some(i) => r == Ok::<Device, String>(Device::Listed(i as usize)) && 0 <= i < names@.len(),
            None => if has_default {
                r == Ok::<Device, String>(Device::SystemDefault)
            } else {
                r matches Err(e) && e@ == "no input device available"@
            },
        },
{
    let ghost all = name_views(names@);
    if !wanted.is_empty() {
        let mut i: usize = 0;
        while i < names.len()
            invariant
                i <= names@.len(),
                all == name_views(names@),
                wanted@.len() > 0,
                asked(all, wanted@) == first_named(all, wanted@, i as int),
            decreases names@.len() - i,
        {
            assert(all[i as int] == (match names@[i as int] {
                Some(s) => Some(s@),
                None => None,
            }));
            match &names[i] {
                Some(n) => {
                    if same_str(n.as_str(), wanted) {
                        return Ok(Device::Listed(i));
                    }
                },
                None => {},
            }
            i += 1;
        }
    }
    if has_default {
        Ok(Device::SystemDefault)
    } else {
        Err("no input device available".to_owned())
    }
}

/// The sample formats a device may deliver, as far as they are told apart.
#[derive(Debug, Clone, Copy, PartialEq, Eq, Structural)]
pub enum SampleFormat {
    F32,
    I16,
    U16,
    Other,
}

/// What has been captured. `S` is one sample, of one channel.
#[derive(Debug)]
pub struct Recorder<S> {
    buffer: Vec<S>,
    source_rate: u32,
    source_channels: u16,
}

/// How many samples a dictation may hold before capture is ignored.
pub open spec fn limit(rate: u32, channels: u16) -> int {
    MAX_SECONDS * rate * channels
}

impl<S> Recorder<S> {
    /// What has been captured so far.
    pub closed spec fn captured(&self) -> Seq<S> {
        self.buffer@
    }

    pub closed spec fn rate(&self) -> u32 {
        self.source_rate
    }

    pub closed spec fn channels(&self) -> u16 {
        self.source_channels
    }

    /// A recorder for a device that delivers `format` at `rate` over `channels`; `shown` is the
    /// format's name.
    pub fn open(format: SampleFormat, shown: &str, rate: u32, channels: u16) -> (r: Result<
        Recorder<S>,
        String,
    >)
        ensures
            format is Other ==> (r matches Err(e) && e@ == "unsupported sample format: "@ + shown@),
            format !is Other ==> (r matches Ok(rec) && rec.captured() == Seq::<S>::empty()
                && rec.rate() == rate && rec.channels() == channels),
    {
        match format {
            SampleFormat::Other => {
                let mut e: String = "unsupported sample format: ".to_owned();
                e.append(shown);
                Err(e)
            },
            _ => {
                let buffer: Vec<S> = Vec::new();
                Ok(Recorder { buffer, source_rate: rate, source_channels: channels })
            },
        }
    }

    /// The rate and the channels of what is captured.
    pub fn layout(&self) -> (r: (u32, u16))
        ensures
            r == (self.rate(), self.channels()),
    {
        (self.source_rate, self.source_channels)
    }

    /// Begins a dictation: nothing of the one before is left.
    pub fn start(&mut self)
        ensures
            final(self).captured() == Seq::<S>::empty(),
            final(self).rate() == old(self).rate(),
            final(self).channels() == old(self).channels(),
    {
        self.buffer.clear();
    }

    /// Ends a dictation and hands over what was captured.
    pub fn stop(&mut self) -> (samples: Vec<S>)
        ensures
            samples@ == old(self).captured(),
            final(self).captured() == Seq::<S>::empty(),
            final(self).rate() == old(self).rate(),
            final(self).channels() == old(self).channels(),
    {
        let mut samples: Vec<S> = Vec::new();
        samples.append(&mut self.buffer);
        samples
    }
}

impl<S: Copy> Recorder<S> {
    /// Takes a block from the device, unless the cap was reached.
    pub fn append(&mut self, data: &[S])
        requires
            old(self).captured().len() + data@.len() <= usize::MAX,
        ensures
            final(self).captured() == if old(self).captured().len() < limit(
                old(self).rate(),
                old(self).channels(),
            ) {
                old(self).captured() + data@
            } else {
                old(self).captured()
            },
            final(self).rate() == old(self).rate(),
            final(self).channels() == old(self).channels(),
            forall|blocks: Seq<Seq<S>>| #[trigger]
                after_blocks(blocks, limit(old(self).rate(), old(self).channels())) == old(
                    self,
                ).captured() ==> final(self).captured() == after_blocks(
                    blocks.push(data@),
                    limit(old(self).rate(), old(self).channels()),
                ),
    {
        proof {
            let max = limit(self.rate(), self.channels());
            assert forall|blocks: Seq<Seq<S>>| #[trigger]
                after_blocks(blocks, max) == self.captured() implies after_blocks(
                blocks.push(data@),
                max,
            ) == (if self.captured().len() < max {
                self.captured() + data@
            } else {
                self.captured()
            }) by {
                assert(blocks.push(data@).drop_last() =~= blocks);
            }
        }
        let rate: u64 = self.source_rate as u64;
        let channels: u64 = self.source_channels as u64;
        assert(MAX_SECONDS * rate <= 120 * 0xffff_ffff);
        assert(MAX_SECONDS * rate * channels <= 120 * 0xffff_ffff * 0xffff) by (nonlinear_arith)
            requires
                0 <= MAX_SECONDS * rate <= 120 * 0xffff_ffff,
                0 <= channels <= 0xffff,
        ;
        let max_samples: u64 = MAX_SECONDS * rate * channels;
        if (self.buffer.len() as u64) < max_samples {
            self.take(data);
        }
    }

    fn take(&mut self, data: &[S])
        ensures
            final(self).captured() == old(self).captured() + data@,
            final(self).rate() == old(self).rate(),
            final(self).channels() == old(self).channels(),
    {
        let mut i: usize = 0;
        let ghost before = self.buffer@;
        while i < data.len()
            invariant
                i <= data@.len(),
                self.buffer@ == before + data@.take(i as int),
                self.source_rate == old(self).source_rate,
                self.source_channels == old(self).source_channels,
            decreases data@.len() - i,
        {
            self.buffer.push(data[i]);
            assert(data@.take(i + 1) == data@.take(i as int).push(data@[i as int]));
            i += 1;
        }
        assert(data@.take(i as int) == data@);
    }
}

/// The samples after some blocks have come, with a cap of `max`.
pub open spec fn after_blocks<S>(blocks: Seq<Seq<S>>, max: int) -> Seq<S>
    decreases blocks.len(),
{
    if blocks.len() == 0 {
        seq![]
    } else {
        let before = after_blocks(blocks.drop_last(), max);
        if before.len() < max {
            before + blocks.last()
        } else {
            before
        }
    }
}

/// However many blocks come, what is kept exceeds the cap by less than one block: a release that
/// is never seen cannot fill the memory.
pub proof fn law_a_runaway_recording_is_capped<S>(blocks: Seq<Seq<S>>, max: int, block: int)
    requires
        max >= 0,
        block >= 1,
        forall|i: int| 0 <= i < blocks.len() ==> (#[trigger] blocks[i]).len() <= block,
    ensures
        after_blocks(blocks, max).len() <= max + block - 1,
    decreases blocks.len(),
{
    if blocks.len() > 0 {
        let front = blocks.drop_last();
        assert forall|i: int| 0 <= i < front.len() implies (#[trigger] front[i]).len() <= block by {
            assert(front[i] == blocks[i]);
        }
        law_a_runaway_recording_is_capped(front, max, block);
        assert(blocks.last() == blocks[blocks.len() - 1]);
    }
}

/// A device that is there is chosen by its name, and of two with one name the first.
pub proof fn law_a_listed_device_is_found(names: Seq<Option<Seq<char>>>, wanted: Seq<char>)
    requires
        wanted.len() > 0,
    ensures
        match asked(names, wanted) {
            Some(i) => 0 <= i < names.len() && names[i] == Some(wanted) && forall|j: int|
                0 <= j < i ==> #[trigger] names[j] != Some(wanted),
            None => forall|j: int| 0 <= j < names.len() ==> #[trigger] names[j] != Some(wanted),
        },
{
    lemma_first_named(names, wanted, 0);
}

proof fn lemma_first_named(names: Seq<Option<Seq<char>>>, wanted: Seq<char>, from: int)
    requires
        0 <= from,
    ensures
        match first_named(names, wanted, from) {
            Some(i) => from <= i < names.len() && names[i] == Some(wanted) && forall|j: int|
                from <= j < i ==> #[trigger] names[j] != Some(wanted),
            None => forall|j: int| from <= j < names.len() ==> #[trigger] names[j] != Some(wanted),
        },
    decreases names.len() - from,
{
    if from < names.len() && names[from] != Some(wanted) {
        lemma_first_named(names, wanted, from + 1);
    }
}

/// Every device whose name could be read is offered, in the order of the system, and no other.
pub proof fn law_every_readable_device_is_offered(
    a: Seq<Option<Seq<char>>>,
    b: Seq<Option<Seq<char>>>,
    name: Seq<char>,
)
    ensures
        readable(a + b) == readable(a) + readable(b),
        readable(seq![Some(name)]) == seq![name],
        readable(seq![None::<Seq<char>>]) == Seq::<Seq<char>>::empty(),
        readable(Seq::<Option<Seq<char>>>::empty()) == Seq::<Seq<char>>::empty(),
    decreases b.len(),
{
    let none = Seq::<Option<Seq<char>>>::empty();
    assert(readable(none) =~= seq![]);
    assert(seq![Some(name)].drop_last() =~= none);
    assert(seq![None::<Seq<char>>].drop_last() =~= none);
    assert(readable(seq![Some(name)]) =~= seq![name]);
    assert(readable(seq![None::<Seq<char>>]) =~= seq![]);
    if b.len() == 0 {
        assert(a + b =~= a);
        assert(readable(a) + readable(b) =~= readable(a));
    } else {
        law_every_readable_device_is_offered(a, b.drop_last(), name);
        assert((a + b).drop_last() =~= a + b.drop_last());
        assert((a + b).last() == b.last());
        assert(readable(a + b) =~= readable(a) + readable(b));
    }
}

/// The names of a list of devices are those of each, in its place.
pub proof fn law_each_device_has_its_name(v: Seq<Option<String>>)
    ensures
        name_views(v).len() == v.len(),
        forall|i: int|
            0 <= i < v.len() ==> ((v[i] matches Some(s) ==> #[trigger] name_views(v)[i] == Some(s@)) && (
            v[i] is None ==> name_views(v)[i] is None)),
{
}

/// No device is asked for by an empty name.
pub proof fn law_an_empty_name_means_the_default(names: Seq<Option<Seq<char>>>)
    ensures
        asked(names, Seq::<char>::empty()) is None,
{
}

/// A recording may last two minutes: as many samples as that takes at its rate, in every channel.
pub proof fn law_a_recording_may_last_two_minutes(rate: u32, channels: u16)
    ensures
        limit(rate, channels) == 120 * (rate * channels),
{
    assert(120 * rate * channels == 120 * (rate * channels)) by (nonlinear_arith);
}

/// Up to the limit no sample is lost: the blocks stand one behind another, whole.
pub proof fn law_no_sample_is_lost_below_the_limit<S>(blocks: Seq<Seq<S>>, block: Seq<S>, max: int)
    ensures
        after_blocks(Seq::<Seq<S>>::empty(), max) == Seq::<S>::empty(),
        after_blocks(blocks, max).len() < max ==> after_blocks(blocks.push(block), max)
            == after_blocks(blocks, max) + block,
        after_blocks(blocks, max).len() >= max ==> after_blocks(blocks.push(block), max)
            == after_blocks(blocks, max),
{
    assert(blocks.push(block).drop_last() =~= blocks);
}

} // verus!
