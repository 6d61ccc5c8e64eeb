//! `get-process`: running processes, from
//! `ps -eo pid,ppid,user,pcpu,pmem,rss,comm,args --no-headers`.
//!
//! The CPU and memory percentages are kept as the text `ps` printed; they
//! are read as floating-point numbers where they are shown.
use vstd::prelude::*;
use crate::commands::common::{remainder_after_tokens, text_after_words};
use crate::text::{
    chars_of, lemma_filter_map_step, lines, lines_exec, parse_u64_or_zero, parse_u64_or_zero_exec, to_string,
    views, words, words_exec,
};

verus! {

pub struct Process {
    pub pid: u64,
    pub ppid: u64,
    pub user: String,
    /// The `pcpu` column as printed.
    pub cpu_percent: String,
    /// The `pmem` column as printed.
    pub mem_percent: String,
    pub rss_bytes: u64,
    pub comm: String,
    pub args: String,
}

pub struct ProcessV {
    pub pid: u64,
    pub ppid: u64,
    pub user: Seq<char>,
    pub cpu_percent: Seq<char>,
    pub mem_percent: Seq<char>,
    pub rss_bytes: u64,
    pub comm: Seq<char>,
    pub args: Seq<char>,
}

impl View for Process {
    type V = ProcessV;

    open spec fn view(&self) -> ProcessV {
        ProcessV {
            pid: self.pid,
            ppid: self.ppid,
            user: self.user@,
            cpu_percent: self.cpu_percent@,
            mem_percent: self.mem_percent@,
            rss_bytes: self.rss_bytes,
            comm: self.comm@,
            args: self.args@,
        }
    }
}

pub open spec fn processes_view(v: Seq<Process>) -> Seq<ProcessV> {
    v.map_values(|p: Process| p@)
}

/// The `rss` column of a `ps` line, in KiB (0 when it is not a number).
pub open spec fn rss_kib(line: Seq<char>) -> u64 {
    parse_u64_or_zero(words(line)[5])
}

/// A `ps` line holds a process when it has at least eight tokens. The first
/// seven columns are single tokens (numbers that do not parse count as 0);
/// `args` is the rest of the line after the seventh token, with leading
/// whitespace removed.
pub open spec fn process_line(line: Seq<char>) -> Option<ProcessV> {
    let f = words(line);
    if f.len() < 8 {
        None
    } else {
        Some(
            ProcessV {
                pid: parse_u64_or_zero(f[0]),
                ppid: parse_u64_or_zero(f[1]),
                user: f[2],
                cpu_percent: f[3],
                mem_percent: f[4],
                rss_bytes: (rss_kib(line) * 1024) as u64,
                comm: f[6],
                args: text_after_words(line, 7),
            },
        )
    }
}

/// The resident size of every process line fits in a `u64` once converted
/// to bytes.
pub open spec fn rss_fits(text: Seq<char>) -> bool {
    let ls = lines(text);
    forall|i: int| 0 <= i < ls.len() && words(#[trigger] ls[i]).len() >= 8 ==> rss_kib(ls[i]) * 1024 <= u64::MAX
}

pub open spec fn process_parser() -> spec_fn(Seq<char>) -> Option<ProcessV> {
    |l: Seq<char>| process_line(l)
}

/// The processes listed by `ps`, in order.
pub open spec fn processes_of(text: Seq<char>) -> Seq<ProcessV> {
    lines(text).filter_map(process_parser())
}

/// Whether every resident size of the `ps` output fits in a `u64` once
/// converted to bytes (`parse_processes` requires it).
pub fn rss_in_range(text: &str) -> (r: bool)
    ensures
        r == rss_fits(text@),
{
    let ls = lines_exec(&chars_of(text));
    let ghost lv = views(ls@);
    let mut i: usize = 0;
    while i < ls.len()
        invariant
            i <= ls.len(),
            lv == views(ls@),
            lv == lines(text@),
            forall|k: int| 0 <= k < i && words(#[trigger] lv[k]).len() >= 8 ==> rss_kib(lv[k]) * 1024 <= u64::MAX,
        decreases ls.len() - i,
    {
        assert(lv[i as int] == ls@[i as int]@);
        let f = words_exec(&ls[i]);
        if f.len() >= 8 {
            assert(views(f@)[5] == f@[5]@);
            let kib = parse_u64_or_zero_exec(&f[5]);
            if kib > 18014398509481983 {
                return false;
            }
        }
        i = i + 1;
    }
    true
}

fn process_from_line(line: &Vec<char>) -> (r: Option<Process>)
    requires
        words(line@).len() >= 8 ==> rss_kib(line@) * 1024 <= u64::MAX,
    ensures
        match process_line(line@) {
            Some(p) => r is Some && r->0@ == p,
            None => r is None,
        },
{
    let f = words_exec(line);
    if f.len() < 8 {
        return None;
    }
    assert(views(f@)[0] == f@[0]@);
    assert(views(f@)[1] == f@[1]@);
    assert(views(f@)[2] == f@[2]@);
    assert(views(f@)[3] == f@[3]@);
    assert(views(f@)[4] == f@[4]@);
    assert(views(f@)[5] == f@[5]@);
    assert(views(f@)[6] == f@[6]@);
    let kib = parse_u64_or_zero_exec(&f[5]);
    Some(
        Process {
            pid: parse_u64_or_zero_exec(&f[0]),
            ppid: parse_u64_or_zero_exec(&f[1]),
            user: to_string(&f[2]),
            cpu_percent: to_string(&f[3]),
            mem_percent: to_string(&f[4]),
            rss_bytes: kib * 1024,
            comm: to_string(&f[6]),
            args: remainder_after_tokens(line, 7),
        },
    )
}

/// Parse the `ps` output.
pub fn parse_processes(text: &str) -> (r: Vec<Process>)
    requires
        rss_fits(text@),
    ensures
        processes_view(r@) == processes_of(text@),
{
    let ls = lines_exec(&chars_of(text));
    let ghost lv = views(ls@);
    let mut out: Vec<Process> = Vec::new();
    let mut i: usize = 0;
    while i < ls.len()
        invariant
            i <= ls.len(),
            lv == views(ls@),
            lv == lines(text@),
            rss_fits(text@),
            processes_view(out@) == lv.take(i as int).filter_map(process_parser()),
        decreases ls.len() - i,
    {
        proof {
            lemma_filter_map_step(lv, process_parser(), i as int);
        }
        assert(lv[i as int] == ls@[i as int]@);
        let ghost before = out@;
        match process_from_line(&ls[i]) {
            Some(p) => {
                out.push(p);
                assert(processes_view(out@) =~= processes_view(before).push(p@));
            },
            None => {},
        }
        i = i + 1;
    }
    assert(lv.take(ls.len() as int) =~= lv);
    out
}

} // verus!
