//! The weights of the measured model: which files, where from, and how their download shows.

use vstd::prelude::*;

use crate::numbers;
use crate::numbers::decimal_text;
use crate::paths;
use crate::paths::{join, with_extension};

verus! {

pub const REPO: &'static str =
    "https://huggingface.co/istupakov/parakeet-tdt-0.6b-v3-onnx/resolve/main";

/// The files of the model: the small variant only, because the large one is no use to an
/// application whose whole pitch is being small.
pub open spec fn file_names() -> Seq<&'static str> {
    seq!["encoder-model.int8.onnx", "decoder_joint-model.int8.onnx", "vocab.txt"]
}

/// The files of the model.
pub fn files() -> (v: Vec<&'static str>)
    ensures
        v@ == file_names(),
{
    let v: Vec<&'static str> = vec![
        "encoder-model.int8.onnx",
        "decoder_joint-model.int8.onnx",
        "vocab.txt",
    ];
    assert(v@ =~= file_names());
    v
}

/// Where the model is kept.
pub fn model_dir() -> (dir: String)
    ensures
        dir@ == "models/parakeet-tdt-v3-int8"@,
{
    "models/parakeet-tdt-v3-int8".to_owned()
}

/// The whole number nearest to `n / d`, and of two the even one.
pub open spec fn nearest_even(n: nat, d: nat) -> nat {
    let q = n / d;
    let r = n % d;
    if 2 * r > d || (2 * r == d && q % 2 == 1) {
        q + 1
    } else {
        q
    }
}

/// The distance between neighbours among the numbers with 53 significant binary digits, at `n`.
pub open spec fn grain(n: nat) -> nat
    decreases n,
{
    if n < 0x20_0000_0000_0000 {
        1
    } else {
        2 * grain(n / 2)
    }
}

/// The number with 53 significant binary digits that is nearest to `n`: the precision that sizes
/// are shown from.
pub open spec fn to_precision(n: nat) -> nat {
    nearest_even(n, grain(n)) * grain(n)
}

/// The unit that a size is shown in: the largest of bytes, kilobytes, megabytes and gigabytes of
/// which there is at least one.
pub open spec fn unit(v: nat) -> int {
    if v < 0x400 {
        0
    } else if v < 0x10_0000 {
        1
    } else if v < 0x4000_0000 {
        2
    } else {
        3
    }
}

pub open spec fn unit_size(u: int) -> nat {
    if u == 0 {
        1
    } else if u == 1 {
        0x400
    } else if u == 2 {
        0x10_0000
    } else {
        0x4000_0000
    }
}

pub open spec fn unit_name(u: int) -> Seq<char> {
    if u == 0 {
        "B"@
    } else if u == 1 {
        "KB"@
    } else if u == 2 {
        "MB"@
    } else {
        "GB"@
    }
}

/// A size as people read it: a whole number of its unit.
pub open spec fn readable(bytes: nat) -> Seq<char> {
    let v = to_precision(bytes);
    numbers::decimal(nearest_even(v, unit_size(unit(v)))) + unit_name(unit(v))
}

fn round_even(n: u128, d: u128) -> (q: u128)
    requires
        0 < d <= 0x4000_0000,
        n <= 0x1_0000_0000_0000_0000,
    ensures
        q == nearest_even(n as nat, d as nat),
        q <= n,
{
    let q: u128 = n / d;
    let r: u128 = n % d;
    assert(q <= n && (q == n ==> r == 0 || n == 0)) by (nonlinear_arith)
        requires
            d > 0,
            q == n / d,
            r == n % d,
            n >= 0,
    ;
    if 2 * r > d || (2 * r == d && q % 2 == 1) {
        assert(q < n) by {
            assert(r > 0);
            if n == 0 {
                assert(r == 0) by (nonlinear_arith)
                    requires
                        n == 0,
                        r == n % d,
                        d > 0,
                ;
            }
        }
        q + 1
    } else {
        q
    }
}

/// The grains that sizes below two to the sixty-fourth have.
spec fn is_grain(g: int) -> bool {
    g == 1 || g == 2 || g == 4 || g == 8 || g == 16 || g == 32
        || g == 64 || g == 128 || g == 256 || g == 512 || g == 1024 || g == 2048
}

fn grain_of(n: u64) -> (g: u128)
    ensures
        g == grain(n as nat),
        is_grain(g as int),
{
    let mut g: u128 = 1;
    let mut rest: u64 = n;
    while rest >= 0x20_0000_0000_0000
        invariant
            grain(n as nat) == g * grain(rest as nat),
            is_grain(g as int),
            g * rest <= n,
        decreases rest,
    {
        proof {
            assert(g * (2 * grain((rest / 2) as nat)) == (g * 2) * grain((rest / 2) as nat)) by (nonlinear_arith);
            assert(g < 2048) by (nonlinear_arith)
                requires
                    g * rest <= n,
                    n <= 0xffff_ffff_ffff_ffff,
                    rest >= 0x20_0000_0000_0000,
            ;
            let half: int = (rest / 2) as int;
            assert((g * 2) * half <= g * rest) by (nonlinear_arith)
                requires
                    2 * half <= rest,
                    g > 0,
            ;
        }
        g = g * 2;
        rest = rest / 2;
    }
    proof {
        assert(grain(rest as nat) == 1);
        assert(g * grain(rest as nat) == g) by (nonlinear_arith)
            requires
                grain(rest as nat) == 1,
        ;
    }
    g
}

/// `bytes` as people read it.
pub fn human(bytes: u64) -> (s: String)
    ensures
        s@ == readable(bytes as nat),
{
    let g: u128 = grain_of(bytes);
    let steps: u128 = round_even(bytes as u128, g);
    proof {
        lemma_precise(bytes as nat, g as nat);
    }
    let v: u128 = steps * g;
    let (size, name): (u128, &'static str) = if v < 0x400 {
        (1, "B")
    } else if v < 0x10_0000 {
        (0x400, "KB")
    } else if v < 0x4000_0000 {
        (0x10_0000, "MB")
    } else {
        (0x4000_0000, "GB")
    };
    let shown: u128 = round_even(v, size);
    assert(shown <= 0x4_0000_0000) by {
        lemma_shown_is_small(v as nat, size as nat);
    }
    let mut s: String = decimal_text(shown as u64);
    s.append(name);
    s
}

proof fn lemma_precise(n: nat, g: nat)
    requires
        is_grain(g as int),
        n <= 0xffff_ffff_ffff_ffff,
    ensures
        nearest_even(n, g) * g <= 0x1_0000_0000_0000_0000,
{
    assert(g == 1 ==> nearest_even(n, 1) * 1 <= 0x1_0000_0000_0000_0000);
    assert(g == 2 ==> nearest_even(n, 2) * 2 <= 0x1_0000_0000_0000_0000);
    assert(g == 4 ==> nearest_even(n, 4) * 4 <= 0x1_0000_0000_0000_0000);
    assert(g == 8 ==> nearest_even(n, 8) * 8 <= 0x1_0000_0000_0000_0000);
    assert(g == 16 ==> nearest_even(n, 16) * 16 <= 0x1_0000_0000_0000_0000);
    assert(g == 32 ==> nearest_even(n, 32) * 32 <= 0x1_0000_0000_0000_0000);
    assert(g == 64 ==> nearest_even(n, 64) * 64 <= 0x1_0000_0000_0000_0000);
    assert(g == 128 ==> nearest_even(n, 128) * 128 <= 0x1_0000_0000_0000_0000);
    assert(g == 256 ==> nearest_even(n, 256) * 256 <= 0x1_0000_0000_0000_0000);
    assert(g == 512 ==> nearest_even(n, 512) * 512 <= 0x1_0000_0000_0000_0000);
    assert(g == 1024 ==> nearest_even(n, 1024) * 1024 <= 0x1_0000_0000_0000_0000);
    assert(g == 2048 ==> nearest_even(n, 2048) * 2048 <= 0x1_0000_0000_0000_0000);
}

proof fn lemma_shown_is_small(v: nat, size: nat)
    requires
        v <= 0x1_0000_0000_0000_0000,
        size == unit_size(unit(v)),
    ensures
        nearest_even(v, size) <= 0x4_0000_0000,
{
}

/// What is done about one file of the model.
#[derive(Debug)]
pub enum Fetch {
    /// The file is there; say so.
    Present { line: String },
    /// Fetch the file into `partial` and rename it to `dest`.
    Download { announce: String, url: String, partial: String, dest: String },
}

/// The line for a file that is there.
pub open spec fn present_line(name: Seq<char>, size: nat) -> Seq<char> {
    "  ✓ "@ + name + " ("@ + readable(size) + ")"@
}

/// What is done about the file `name` of `dir`; `size` is its length, if it is there. An empty
/// file counts as missing.
pub fn ensure(dir: &str, name: &str, size: Option<u64>) -> (f: Fetch)
    ensures
        match size {
            Some(n) if n > 0 => f matches Fetch::Present { line } && line@ == present_line(
                name@,
                n as nat,
            ),
            _ => f matches Fetch::Download { announce, url, partial, dest } && announce@
                == "  ↓ "@ + name@ + " "@ && url@ == REPO@ + "/"@ + name@ && dest@ == paths::below(
                dir@,
                name@,
            ) && partial@ == paths::below(dir@, paths::with_ending(name@, "partial"@)),
        },
{
    if let Some(n) = size {
        if n > 0 {
            let mut line: String = "  ✓ ".to_owned();
            line.append(name);
            line.append(" (");
            line.append(human(n).as_str());
            line.append(")");
            return Fetch::Present { line };
        }
    }
    let mut announce: String = "  ↓ ".to_owned();
    announce.append(name);
    announce.append(" ");
    let mut url: String = REPO.to_owned();
    url.append("/");
    url.append(name);
    let partial: String = join(dir, with_extension(name, "partial").as_str());
    Fetch::Download { announce, url, partial, dest: join(dir, name) }
}

/// A download, as far as its percentages go.
#[derive(Debug)]
pub struct Percentages {
    pub total: u64,
    pub written: u64,
    pub shown: u32,
}

/// How many percent `written` bytes are, as a 32-bit number, which a server that announces far
/// too little makes wrap around.
pub open spec fn percent(written: int, total: int) -> int {
    (written * 100 / total) % 0x1_0000_0000
}

/// What is shown once so many more bytes were written, and what was then shown last.
pub open spec fn shows(before: Percentages, bytes: int, last: int, shown: Option<String>) -> bool {
    let now = percent(before.written + bytes, before.total as int);
    if before.total > 0 && now >= before.shown + 10 {
        last == now && (shown matches Some(t) && t@ == numbers::decimal(now as nat) + "% "@)
    } else {
        last == before.shown && shown is None
    }
}

impl Percentages {
    /// Nothing has come of `total` bytes; zero means that their number is not known.
    pub fn start(total: u64) -> (p: Percentages)
        ensures
            p == (Percentages { total, written: 0, shown: 0 }),
    {
        Percentages { total, written: 0, shown: 0 }
    }

    /// Whether `bytes` more can be counted.
    pub open spec fn counts(self, bytes: usize) -> bool {
        &&& self.written + bytes <= u64::MAX
        &&& self.total > 0 ==> (self.written + bytes) * 100 <= u64::MAX && self.shown <= u32::MAX
            - 10
    }

    /// Whether `bytes` more can be counted.
    pub fn can_count(&self, bytes: usize) -> (b: bool)
        ensures
            b == self.counts(bytes),
    {
        let all: u128 = self.written as u128 + bytes as u128;
        if self.total == 0 {
            all <= u64::MAX as u128
        } else {
            all * 100 <= u64::MAX as u128 && self.shown <= u32::MAX - 10
        }
    }

    /// Counts `bytes` more, and says what to show: the percentage, each time it has risen by ten
    /// or more since it was last shown, and nothing where the total is not known.
    pub fn wrote(&mut self, bytes: usize) -> (shown: Option<String>)
        requires
            old(self).counts(bytes),
        ensures
            final(self).total == old(self).total,
            final(self).written == old(self).written + bytes,
            ({
                let now = percent(old(self).written + bytes, old(self).total as int);
                if old(self).total > 0 && now >= old(self).shown + 10 {
                    &&& final(self).shown == now
                    &&& shown matches Some(t) && t@ == numbers::decimal(now as nat) + "% "@
                } else {
                    &&& final(self).shown == old(self).shown
                    &&& shown is None
                }
            }),
            shows(*old(self), bytes as int, final(self).shown as int, shown),
    {
        self.written = self.written + bytes as u64;
        if self.total == 0 {
            return None;
        }
        let now: u32 = ((self.written * 100 / self.total) % 0x1_0000_0000) as u32;
        assert(now == percent(self.written as int, self.total as int));
        if now >= self.shown + 10 {
            self.shown = now;
            let mut t: String = decimal_text(now as u64);
            t.append("% ");
            return Some(t);
        }
        None
    }

    /// The line at the end.
    pub fn done(&self) -> (line: String)
        ensures
            line@ == "done ("@ + readable(self.written as nat) + ")"@,
    {
        let mut line: String = "done (".to_owned();
        line.append(human(self.written).as_str());
        line.append(")");
        line
    }
}

/// Sizes below a kilobyte are shown to the byte.
pub proof fn law_small_sizes_are_exact(n: nat)
    requires
        n < 1024,
    ensures
        readable(n) == numbers::decimal(n) + "B"@,
{
    lemma_exact_below_precision(n);
    assert(nearest_even(n, 1) == n);
}

proof fn lemma_exact_below_precision(n: nat)
    requires
        n < 0x20_0000_0000_0000,
    ensures
        to_precision(n) == n,
{
    assert(grain(n) == 1);
    assert(nearest_even(n, 1) == n);
}

/// A whole number of a unit is shown as that number, up to what the precision holds exactly.
pub proof fn law_whole_units_are_exact(k: nat)
    requires
        0 < k < 1024,
    ensures
        readable(k * 0x400) == numbers::decimal(k) + "KB"@,
        readable(k * 0x10_0000) == numbers::decimal(k) + "MB"@,
        readable(k * 0x4000_0000) == numbers::decimal(k) + "GB"@,
{
    lemma_exact_below_precision(k * 0x400);
    lemma_exact_below_precision(k * 0x10_0000);
    lemma_exact_below_precision(k * 0x4000_0000);
    assert(nearest_even(k * 0x400, 0x400) == k);
    assert(nearest_even(k * 0x10_0000, 0x10_0000) == k);
    assert(nearest_even(k * 0x4000_0000, 0x4000_0000) == k);
}

/// A size is shown by the whole number of its unit that is nearest to it, and where two are equally
/// near by the even one. The unit is the largest of which there is at least one.
pub proof fn law_a_size_is_shown_by_the_nearest_number(n: nat)
    requires
        n < 0x20_0000_0000_0000,
    ensures
        n < 1024 ==> readable(n) == numbers::decimal(n) + "B"@,
        1024 <= n < 1048576 ==> exists|q: nat| #[trigger]
            numbers::decimal(q) + "KB"@ == readable(n) && -1024 <= 2 * (n - q * 1024) <= 1024 && (2 * (n
                - q * 1024) == 1024 || 2 * (n - q * 1024) == -1024 ==> q % 2 == 0),
        1048576 <= n < 1073741824 ==> exists|q: nat| #[trigger]
            numbers::decimal(q) + "MB"@ == readable(n) && -1048576 <= 2 * (n - q * 1048576) <= 1048576
                && (2 * (n - q * 1048576) == 1048576 || 2 * (n - q * 1048576) == -1048576 ==> q % 2
                == 0),
        1073741824 <= n ==> exists|q: nat| #[trigger]
            numbers::decimal(q) + "GB"@ == readable(n) && -1073741824 <= 2 * (n - q * 1073741824)
                <= 1073741824 && (2 * (n - q * 1073741824) == 1073741824 || 2 * (n - q * 1073741824)
                == -1073741824 ==> q % 2 == 0),
{
    lemma_exact_below_precision(n);
    assert(nearest_even(n, 1) == n);
    if 1024 <= n < 1048576 {
        let q = nearest_even(n, 1024);
        assert(numbers::decimal(q) + "KB"@ == readable(n));
    } else if 1048576 <= n < 1073741824 {
        let q = nearest_even(n, 1048576);
        assert(numbers::decimal(q) + "MB"@ == readable(n));
    } else if 1073741824 <= n {
        let q = nearest_even(n, 1073741824);
        assert(numbers::decimal(q) + "GB"@ == readable(n));
    }
}

/// The percentage is the whole percents that are there: no more than what was written, and short of it
/// by less than one.
pub proof fn law_the_percentage_is_what_is_there(written: int, total: int)
    requires
        0 <= written <= total,
        0 < total,
    ensures
        0 <= percent(written, total) <= 100,
        percent(written, total) * total <= written * 100,
        written * 100 < (percent(written, total) + 1) * total,
{
    let p = written * 100 / total;
    assert(0 <= p <= 100 && p * total <= written * 100 < (p + 1) * total) by (nonlinear_arith)
        requires
            0 <= written <= total,
            0 < total,
            p == written * 100 / total,
    ;
}

/// What is said of a file that is there, and which files the model has.
pub proof fn law_which_files_the_model_has(name: Seq<char>, size: nat)
    ensures
        present_line(name, size) == "  ✓ "@ + name + " ("@ + readable(size) + ")"@,
        file_names().len() == 3,
        file_names()[0]@ == "encoder-model.int8.onnx"@,
        file_names()[1]@ == "decoder_joint-model.int8.onnx"@,
        file_names()[2]@ == "vocab.txt"@,
        REPO@ == "https://huggingface.co/istupakov/parakeet-tdt-0.6b-v3-onnx/resolve/main"@,
{
}

/// Whether more bytes can be counted: as long as their number fits, and where a percentage is shown
/// a hundred times that number too.
pub proof fn law_what_can_be_counted(p: Percentages, bytes: usize)
    ensures
        p.total == 0 ==> (p.counts(bytes) <==> p.written + bytes <= 0xffff_ffff_ffff_ffff),
        p.total > 0 ==> (p.counts(bytes) <==> (p.written + bytes) * 100 <= 0xffff_ffff_ffff_ffff
            && p.shown + 10 <= 0xffff_ffff),
{
}

/// The precision that sizes are shown from holds 53 binary digits.
pub proof fn law_the_precision_is_53_digits(n: nat)
    ensures
        n < 0x20_0000_0000_0000 ==> to_precision(n) == n,
        n < 0x20_0000_0000_0000 * grain(n),
        n >= 0x20_0000_0000_0000 ==> n >= 0x10_0000_0000_0000 * grain(n),
        grain(n) >= 1,
    decreases n,
{
    if n < 0x20_0000_0000_0000 {
        lemma_exact_below_precision(n);
    } else {
        law_the_precision_is_53_digits(n / 2);
    }
}

/// A percentage is shown each time at least ten more percent are there than were shown last, and never
/// where the total is not known.
pub proof fn law_percentages_are_shown_every_ten(
    before: Percentages,
    bytes: int,
    last: int,
    shown: Option<String>,
)
    requires
        shows(before, bytes, last, shown),
        0 <= bytes,
        before.total > 0 ==> before.written + bytes <= before.total,
    ensures
        before.total == 0 ==> shown is None && last == before.shown,
        before.total > 0 ==> (shown is Some <==> (before.written + bytes) * 100 >= (before.shown + 10)
            * before.total),
        shown is None ==> last == before.shown,
        shown matches Some(t) ==> last == percent(before.written + bytes, before.total as int) && t@
            == numbers::decimal(last as nat) + seq!['%', ' '],
{
    reveal_strlit("% ");
    assert("% "@ =~= seq!['%', ' ']);
    if before.total > 0 {
        let w = before.written + bytes;
        let t = before.total as int;
        let k = before.shown + 10;
        law_the_percentage_is_what_is_there(w, t);
        let p = percent(w, t);
        assert(p >= k ==> w * 100 >= k * t) by (nonlinear_arith)
            requires
                p * t <= w * 100,
                t > 0,
        ;
        assert(p < k ==> w * 100 < k * t) by (nonlinear_arith)
            requires
                w * 100 < (p + 1) * t,
                t > 0,
        ;
    }
}

} // verus!
