//! The whole matrix: one process for each provider, and what its output means.

use vstd::prelude::*;

use crate::bench::run::{ep_flag, Ep};
use crate::chars::{chars_of, string_of};
use crate::numbers;
use crate::numbers::decimal_text;
use crate::words;

verus! {

/// Where the first line break stands, or the length.
pub open spec fn break_at(s: Seq<char>) -> nat
    decreases s.len(),
{
    if s.len() == 0 || s[0] == '\n' {
        0
    } else {
        1 + break_at(s.drop_first())
    }
}

/// A line without the carriage return before its break.
pub open spec fn without_return(line: Seq<char>) -> Seq<char> {
    if line.len() > 0 && line.last() == '\r' {
        line.drop_last()
    } else {
        line
    }
}

/// The lines of a text: each ends at a break, or at the end of the text.
pub open spec fn lines(s: Seq<char>) -> Seq<Seq<char>>
    decreases s.len(),
{
    if s.len() == 0 {
        seq![]
    } else if break_at(s) >= s.len() {
        seq![s]
    } else {
        seq![without_return(s.take(break_at(s) as int))] + lines(s.skip(break_at(s) as int + 1))
    }
}

proof fn lemma_break_at(s: Seq<char>, n: nat)
    requires
        n <= s.len(),
        forall|i: int| 0 <= i < n ==> #[trigger] s[i] != '\n',
        n < s.len() ==> s[n as int] == '\n',
    ensures
        break_at(s) == n,
    decreases n,
{
    if n > 0 {
        let t = s.drop_first();
        assert(s[0] != '\n');
        assert forall|i: int| 0 <= i < n - 1 implies #[trigger] t[i] != '\n' by {
            assert(t[i] == s[i + 1]);
        }
        lemma_break_at(t, (n - 1) as nat);
    }
}

/// The lines of `text`.
pub fn split_lines(text: &str) -> (v: Vec<Vec<char>>)
    ensures
        words::texts(v@) == lines(text@),
{
    let s: Vec<char> = chars_of(text);
    let mut v: Vec<Vec<char>> = Vec::new();
    let mut start: usize = 0;
    assert(s@.skip(0) == s@);
    assert(words::texts(v@) =~= seq![]);
    while start < s.len()
        invariant
            start <= s@.len(),
            lines(s@) == words::texts(v@) + lines(s@.skip(start as int)),
        decreases s@.len() - start,
    {
        let ghost rest = s@.skip(start as int);
        let mut line: Vec<char> = Vec::new();
        let mut end: usize = start;
        while end < s.len() && s[end] != '\n'
            invariant
                start <= end <= s@.len(),
                rest == s@.skip(start as int),
                line@ == s@.subrange(start as int, end as int),
                forall|i: int| 0 <= i < end - start ==> #[trigger] rest[i] != '\n',
            ensures
                start <= end <= s@.len(),
                line@ == s@.subrange(start as int, end as int),
                forall|i: int| 0 <= i < end - start ==> #[trigger] rest[i] != '\n',
                end < s@.len() ==> s@[end as int] == '\n',
            decreases s@.len() - end,
        {
            assert(rest[end - start] == s@[end as int]);
            line.push(s[end]);
            end += 1;
        }
        proof {
            if end < s@.len() {
                assert(rest[end - start] == s@[end as int]);
            }
            lemma_break_at(rest, (end - start) as nat);
            assert(line@ =~= rest.take(end - start));
        }
        let ghost before = v@;
        if end < s.len() {
            if line.len() > 0 && line[line.len() - 1] == '\r' {
                let ghost whole = line@;
                let _ = line.pop();
                assert(line@ =~= whole.drop_last());
            }
            assert(line@ == without_return(rest.take(end - start)));
            assert(rest.skip(end - start + 1) =~= s@.skip(end + 1));
            v.push(line);
            assert(words::texts(v@) =~= words::texts(before).push(line@));
            start = end + 1;
        } else {
            assert(line@ =~= rest);
            v.push(line);
            assert(words::texts(v@) =~= words::texts(before).push(line@));
            assert(lines(rest) == seq![rest]);
            assert(s@.skip(end as int).len() == 0);
            start = end;
        }
        assert(lines(s@) =~= words::texts(v@) + lines(s@.skip(start as int)));
    }
    assert(s@.skip(start as int).len() == 0);
    assert(words::texts(v@) =~= lines(s@));
    v
}

/// The last line, or nothing.
pub open spec fn last_of(text: Seq<char>) -> Seq<char> {
    if lines(text).len() == 0 {
        seq![]
    } else {
        lines(text).last()
    }
}

/// The last two lines, the later first.
pub open spec fn tail_of(text: Seq<char>) -> Seq<char> {
    let all = lines(text);
    if all.len() == 0 {
        seq![]
    } else if all.len() == 1 {
        all[0]
    } else {
        all[all.len() - 1] + " | "@ + all[all.len() - 2]
    }
}

/// The line of a process's output that holds its result: the last one.
pub fn result_line(stdout: &str) -> (line: String)
    ensures
        line@ == last_of(stdout@),
{
    let all: Vec<Vec<char>> = split_lines(stdout);
    assert(words::texts(all@).len() == all@.len());
    if all.len() == 0 {
        return String::new();
    }
    string_of(all[all.len() - 1].as_slice())
}

/// What is worth showing of a crashed process: its last two lines, the later first.
pub fn crash_tail(stderr: &str) -> (tail: String)
    ensures
        tail@ == tail_of(stderr@),
{
    let all: Vec<Vec<char>> = split_lines(stderr);
    assert(words::texts(all@).len() == all@.len());
    if all.len() == 0 {
        return String::new();
    }
    let mut tail: String = string_of(all[all.len() - 1].as_slice());
    if all.len() >= 2 {
        tail.append(" | ");
        tail.append(string_of(all[all.len() - 2].as_slice()).as_str());
    }
    tail
}

/// How a process ended.
#[derive(Debug)]
pub enum Child {
    /// It could not be started.
    NotSpawned { error: String },
    /// It ended with an error.
    Crashed { stderr: String },
    /// Its result could not be read.
    Unparseable { error: String },
    /// It reported a result: an error, or how many times faster than speech it decoded the `mid`
    /// clip, if it measured it.
    Reported { error: Option<String>, mid_rtf: Option<String> },
}

/// What is shown of a process.
pub open spec fn shown(child: Child) -> Seq<char> {
    match child {
        Child::NotSpawned { error } => "could not spawn: "@ + error@,
        Child::Crashed { stderr } => "CRASHED — "@ + tail_of(stderr@),
        Child::Unparseable { error } => "unparseable output: "@ + error@,
        Child::Reported { error, mid_rtf } => match (error, mid_rtf) {
            (Some(e), _) => "FAILED — "@ + e@,
            (None, Some(x)) => "ok ("@ + x@ + "x realtime on mid)"@,
            (None, None) => "no clips measured"@,
        },
    }
}

/// What is shown of a process.
pub fn child_line(child: &Child) -> (line: String)
    ensures
        line@ == shown(*child),
{
    match child {
        Child::NotSpawned { error } => {
            let mut line: String = "could not spawn: ".to_owned();
            line.append(error.as_str());
            line
        },
        Child::Crashed { stderr } => {
            let mut line: String = "CRASHED — ".to_owned();
            line.append(crash_tail(stderr.as_str()).as_str());
            line
        },
        Child::Unparseable { error } => {
            let mut line: String = "unparseable output: ".to_owned();
            line.append(error.as_str());
            line
        },
        Child::Reported { error, mid_rtf } => match error {
            Some(e) => {
                let mut line: String = "FAILED — ".to_owned();
                line.append(e.as_str());
                line
            },
            None => match mid_rtf {
                Some(x) => {
                    let mut line: String = "ok (".to_owned();
                    line.append(x.as_str());
                    line.append("x realtime on mid)");
                    line
                },
                None => "no clips measured".to_owned(),
            },
        },
    }
}

/// What becomes of a process's result in the report.
#[derive(Debug)]
pub enum Entered {
    /// It stands in the report as it is.
    AsReported,
    /// It stands in the report as failed, with this error.
    Failed(String),
    /// It does not stand in the report.
    Omitted,
}

/// A result that was reported is kept, a crash is kept as one, and anything else is left out.
pub fn enter(child: &Child) -> (e: Entered)
    ensures
        match *child {
            Child::Reported { .. } => e is AsReported,
            Child::Crashed { stderr } => e matches Entered::Failed(t) && t@ == "process failed: "@
                + tail_of(stderr@),
            _ => e is Omitted,
        },
{
    match child {
        Child::Reported { .. } => Entered::AsReported,
        Child::Crashed { stderr } => {
            let mut error: String = "process failed: ".to_owned();
            error.append(crash_tail(stderr.as_str()).as_str());
            Entered::Failed(error)
        },
        _ => Entered::Omitted,
    }
}

/// The arguments that make a process measure a provider and report to its parent.
pub open spec fn arguments(ep: Ep, iters: u64) -> Seq<Seq<char>> {
    seq![
        "bench"@,
        "--json"@,
        "--ep"@,
        ep.flagged(),
        "--iters"@,
        numbers::decimal(iters as nat),
    ]
}

/// The arguments that make a process measure `ep` with `iters` iterations.
pub fn child_arguments(ep: Ep, iters: u64) -> (v: Vec<String>)
    ensures
        words::strings(v@) == arguments(ep, iters),
{
    let v: Vec<String> = vec![
        "bench".to_owned(),
        "--json".to_owned(),
        "--ep".to_owned(),
        ep_flag(ep).to_owned(),
        "--iters".to_owned(),
        decimal_text(iters),
    ];
    assert(words::strings(v@) =~= arguments(ep, iters));
    v
}

/// A text without breaks is one line.
pub proof fn law_a_text_without_breaks_is_one_line(s: Seq<char>)
    requires
        s.len() > 0,
        forall|i: int| 0 <= i < s.len() ==> #[trigger] s[i] != '\n',
    ensures
        lines(s) == seq![s],
        last_of(s) == s,
        tail_of(s) == s,
{
    lemma_break_at(s, s.len());
}

/// What precedes the last break does not matter for the last line.
pub proof fn law_the_last_line_stands_alone(front: Seq<char>, line: Seq<char>)
    requires
        line.len() > 0,
        forall|i: int| 0 <= i < line.len() ==> #[trigger] line[i] != '\n',
    ensures
        last_of(front + seq!['\n'] + line) == line,
    decreases front.len(),
{
    let whole = front + seq!['\n'] + line;
    lemma_first_break(front, seq!['\n'] + line);
    assert(front + (seq!['\n'] + line) =~= whole);
    let k = break_at(whole) as int;
    let rest = whole.skip(k + 1);
    if break_at(front) < front.len() {
        assert(rest =~= front.skip(k + 1) + seq!['\n'] + line);
        law_the_last_line_stands_alone(front.skip(k + 1), line);
        assert(lines(whole).last() == lines(rest).last());
    } else {
        assert(rest =~= line);
        law_a_text_without_breaks_is_one_line(line);
        assert(lines(whole).last() == lines(rest).last());
    }
}

/// The first break of a text that goes on with a break is the first of its front, or that one.
proof fn lemma_first_break(front: Seq<char>, back: Seq<char>)
    requires
        back.len() > 0,
        back[0] == '\n',
    ensures
        break_at(front) <= front.len(),
        break_at(front + back) == break_at(front),
    decreases front.len(),
{
    if front.len() > 0 {
        lemma_first_break(front.drop_first(), back);
        assert((front + back).drop_first() =~= front.drop_first() + back);
    } else {
        assert((front + back)[0] == '\n');
    }
}

/// A line ends at its break, and a carriage return in front of that goes with it: the lines of a text
/// are what stands before its first break, and then those of the rest.
pub proof fn law_a_line_ends_at_its_break(line: Seq<char>, rest: Seq<char>)
    requires
        forall|i: int| 0 <= i < line.len() ==> #[trigger] line[i] != '\n',
    ensures
        lines(Seq::<char>::empty()) == Seq::<Seq<char>>::empty(),
        lines(line + seq!['\n'] + rest) == seq![
            if line.len() > 0 && line.last() == '\r' {
                line.drop_last()
            } else {
                line
            },
        ] + lines(rest),
{
    let s = line + seq!['\n'] + rest;
    assert forall|i: int| 0 <= i < line.len() implies #[trigger] s[i] != '\n' by {
        assert(s[i] == line[i]);
    }
    assert(s[line.len() as int] == '\n');
    lemma_break_at(s, line.len());
    assert(s.take(line.len() as int) =~= line);
    assert(s.skip(line.len() as int + 1) =~= rest);
    assert(lines(Seq::<char>::empty()) =~= seq![]);
}

/// What is told of a crash is the last line, and the one before it behind it; of no line nothing is.
pub proof fn law_what_is_told_of_a_crash(text: Seq<char>)
    ensures
        lines(text).len() == 0 ==> last_of(text).len() == 0 && tail_of(text).len() == 0,
        lines(text).len() == 1 ==> tail_of(text) == lines(text)[0],
        lines(text).len() > 0 ==> last_of(text) == lines(text)[lines(text).len() - 1],
        lines(text).len() > 1 ==> tail_of(text) == lines(text)[lines(text).len() - 1]
            + seq![' ', '|', ' '] + lines(text)[lines(text).len() - 2],
{
    reveal_strlit(" | ");
    assert(" | "@ =~= seq![' ', '|', ' ']);
}

/// What is shown of a process that measured: why there is no result, or how fast it was.
pub proof fn law_what_is_shown_of_a_process(a: String, b: String, fast: Option<String>)
    ensures
        shown(Child::NotSpawned { error: a }) == "could not spawn: "@ + a@,
        shown(Child::Crashed { stderr: a }) == "CRASHED — "@ + tail_of(a@),
        shown(Child::Unparseable { error: a }) == "unparseable output: "@ + a@,
        shown(Child::Reported { error: Some(a), mid_rtf: fast }) == "FAILED — "@ + a@,
        shown(Child::Reported { error: None, mid_rtf: Some(b) }) == "ok ("@ + b@
            + "x realtime on mid)"@,
        shown(Child::Reported { error: None, mid_rtf: None }) == "no clips measured"@,
{
}

/// How a process is told what to measure.
pub proof fn law_what_a_process_is_told(ep: Ep, iters: u64)
    ensures
        arguments(ep, iters).len() == 6,
        arguments(ep, iters)[0] == "bench"@ && arguments(ep, iters)[1] == "--json"@,
        arguments(ep, iters)[2] == "--ep"@ && arguments(ep, iters)[3] == ep.flagged(),
        arguments(ep, iters)[4] == "--iters"@,
        numbers::worth(arguments(ep, iters)[5]) == iters,
        ep is Cpu ==> ep.flagged() == "cpu"@,
        ep is Coreml ==> ep.flagged() == "coreml"@,
        ep is CoremlAne ==> ep.flagged() == "coreml-ane"@,
        ep is Webgpu ==> ep.flagged() == "webgpu"@,
{
    numbers::law_decimal_is_worth_the_number(iters as nat);
}

} // verus!
