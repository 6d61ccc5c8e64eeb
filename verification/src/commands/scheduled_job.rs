//! `get-scheduled-job`: scheduled jobs from systemd timers
//! (`systemctl list-timers --all --no-legend`) and the current user's
//! crontab (`crontab -l`).
use vstd::prelude::*;
use crate::commands::common::{remainder_after_tokens, text_after_words};
use crate::json::{jstr, jstr_lit, jv, jv_entries, jv_items, listing, listing_jv, push_item, push_member, Json, JsonV};
use crate::table::{cells_view, headers_view, render, rows_view, table, Align};
use crate::text::{
    chars_of, is_digit, is_digit_exec, is_ws, is_ws_exec, join, join_exec, lemma_filter_map_step,
    lines, lines_exec, slice, string_of, to_string, trim, trim_exec, trim_start, trim_start_exec, views,
    words, words_exec,
};

verus! {

pub enum Job {
    /// A systemd timer. `schedule` is the raw leading next/left/last text.
    Timer { unit: String, activates: String, schedule: String },
    /// A crontab entry split into its schedule expression and command.
    Cron { schedule: String, command: String },
}

pub enum JobV {
    Timer { unit: Seq<char>, activates: Seq<char>, schedule: Seq<char> },
    Cron { schedule: Seq<char>, command: Seq<char> },
}

impl View for Job {
    type V = JobV;

    open spec fn view(&self) -> JobV {
        match self {
            Job::Timer { unit, activates, schedule } => JobV::Timer {
                unit: unit@,
                activates: activates@,
                schedule: schedule@,
            },
            Job::Cron { schedule, command } => JobV::Cron { schedule: schedule@, command: command@ },
        }
    }
}

pub open spec fn jobs_view(v: Seq<Job>) -> Seq<JobV> {
    v.map_values(|j: Job| j@)
}

/// One `systemctl list-timers` line: the last two tokens are the UNIT and
/// ACTIVATES columns; everything before them (NEXT/LEFT/LAST/PASSED, which
/// contains spaces and varies by systemd version) is kept as the schedule,
/// its tokens joined by single spaces. Blank lines and lines with fewer than
/// two tokens hold no timer.
pub open spec fn timer_line(line: Seq<char>) -> Option<JobV> {
    let t = words(line);
    if trim(line).len() == 0 || t.len() < 2 {
        None
    } else {
        Some(
            JobV::Timer {
                unit: t[t.len() - 2],
                activates: t[t.len() - 1],
                schedule: join(t.take(t.len() - 2), seq![' ']),
            },
        )
    }
}

pub open spec fn timer_parser() -> spec_fn(Seq<char>) -> Option<JobV> {
    |l: Seq<char>| timer_line(l)
}

/// The timers listed by `systemctl list-timers`, in order.
pub open spec fn timers_of(text: Seq<char>) -> Seq<JobV> {
    lines(text).filter_map(timer_parser())
}

/// A `(schedule text, command)` job.
pub open spec fn cron_field_char(c: char) -> bool {
    is_digit(c) || c == '*' || c == ',' || c == '-' || c == '/'
}

/// Heuristic: a cron schedule field consists only of digits and the symbols
/// `*,-/`. This filters out stray environment lines (e.g. `SHELL=/bin/sh`).
pub open spec fn cron_field(token: Seq<char>) -> bool {
    token.len() > 0 && forall|i: int| 0 <= i < token.len() ==> cron_field_char(#[trigger] token[i])
}

pub fn looks_like_cron_field(token: &[char]) -> (r: bool)
    ensures
        r == cron_field(token@),
{
    if token.len() == 0 {
        return false;
    }
    let mut i: usize = 0;
    while i < token.len()
        invariant
            i <= token.len(),
            forall|j: int| 0 <= j < i ==> cron_field_char(#[trigger] token@[j]),
        decreases token.len() - i,
    {
        let c = token[i];
        if !(is_digit_exec(c) || c == '*' || c == ',' || c == '-' || c == '/') {
            assert(!cron_field_char(token@[i as int]));
            return false;
        }
        i = i + 1;
    }
    true
}

/// Index of the first whitespace character of `s`.
pub open spec fn first_ws(s: Seq<char>) -> Option<int>
    decreases s.len(),
{
    if s.len() == 0 {
        None
    } else if is_ws(s[0]) {
        Some(0)
    } else {
        match first_ws(s.drop_first()) {
            Some(i) => Some(i + 1),
            None => None,
        }
    }
}

/// One crontab line. Comments, blank lines and environment assignments hold
/// no job. An `@`-shortcut line (`@daily /usr/bin/foo`) has its first
/// whitespace-delimited piece as the schedule and the rest, with leading
/// whitespace removed, as the command; a standard line has its first five
/// fields (joined by single spaces) as the schedule and the rest of the line
/// as the command, and needs at least six tokens with a first token that
/// looks like a cron field. A job with an empty command is dropped.
pub open spec fn cron_line(line: Seq<char>) -> Option<JobV> {
    let t = trim(line);
    if t.len() == 0 || t[0] == '#' {
        None
    } else if t[0] == '@' {
        let (schedule, command) = match first_ws(t) {
            Some(k) => (t.take(k), trim_start(t.skip(k + 1))),
            None => (t, seq![]),
        };
        if command.len() == 0 {
            None
        } else {
            Some(JobV::Cron { schedule, command })
        }
    } else {
        let tokens = words(t);
        if tokens.len() < 6 || !cron_field(tokens[0]) {
            None
        } else {
            let command = text_after_words(t, 5);
            if command.len() == 0 {
                None
            } else {
                Some(JobV::Cron { schedule: join(tokens.take(5), seq![' ']), command })
            }
        }
    }
}

pub open spec fn cron_parser() -> spec_fn(Seq<char>) -> Option<JobV> {
    |l: Seq<char>| cron_line(l)
}

/// The jobs of a crontab, in order.
pub open spec fn cron_jobs_of(text: Seq<char>) -> Seq<JobV> {
    lines(text).filter_map(cron_parser())
}

fn first_ws_exec(s: &Vec<char>) -> (r: Option<usize>)
    ensures
        match r {
            Some(k) => first_ws(s@) == Some(k as int) && k < s.len(),
            None => first_ws(s@) is None,
        },
{
    let mut i: usize = 0;
    assert(s@.skip(0) =~= s@);
    while i < s.len()
        invariant
            i <= s.len(),
            forall|j: int| 0 <= j < i ==> !is_ws(s@[j]),
            first_ws(s@) == match first_ws(s@.skip(i as int)) {
                Some(k) => Some(k + i),
                None => None::<int>,
            },
        decreases s.len() - i,
    {
        assert(s@.skip(i as int)[0] == s@[i as int]);
        assert(s@.skip(i as int).drop_first() =~= s@.skip(i + 1));
        if is_ws_exec(s[i]) {
            return Some(i);
        }
        i = i + 1;
    }
    assert(s@.skip(i as int).len() == 0);
    None
}

/// Sub-slice helper: the tokens before position `n`, joined by spaces.
fn join_first(tokens: &Vec<Vec<char>>, n: usize) -> (r: String)
    requires
        n <= tokens.len(),
    ensures
        r@ == join(views(tokens@).take(n as int), seq![' ']),
{
    let mut first: Vec<Vec<char>> = Vec::new();
    let mut i: usize = 0;
    while i < n
        invariant
            i <= n <= tokens.len(),
            views(first@) == views(tokens@).take(i as int),
        decreases n - i,
    {
        let ghost before = first@;
        first.push(slice(&tokens[i], 0, tokens[i].len()));
        assert(tokens@[i as int]@.subrange(0, tokens@[i as int]@.len() as int) =~= tokens@[i as int]@);
        assert(views(first@) =~= views(before).push(tokens@[i as int]@));
        assert(views(tokens@).take(i + 1) =~= views(tokens@).take(i as int).push(views(tokens@)[i as int]));
        i = i + 1;
    }
    let sep = [' '];
    assert(sep@ =~= seq![' ']);
    to_string(&join_exec(&first, &sep))
}

fn parse_timer_line(line: &Vec<char>) -> (r: Option<Job>)
    ensures
        match timer_line(line@) {
            Some(j) => r is Some && r->0@ == j,
            None => r is None,
        },
{
    let tr = trim_exec(line);
    let t = words_exec(line);
    if tr.len() == 0 || t.len() < 2 {
        return None;
    }
    let n = t.len();
    assert(views(t@)[n - 1] == t@[n - 1]@);
    assert(views(t@)[n - 2] == t@[n - 2]@);
    Some(Job::Timer { unit: to_string(&t[n - 2]), activates: to_string(&t[n - 1]), schedule: join_first(&t, n - 2) })
}

fn parse_cron_line(line: &Vec<char>) -> (r: Option<Job>)
    ensures
        match cron_line(line@) {
            Some(j) => r is Some && r->0@ == j,
            None => r is None,
        },
{
    let t = trim_exec(line);
    if t.len() == 0 || t[0] == '#' {
        return None;
    }
    if t[0] == '@' {
        assert(t@.subrange(0, t@.len() as int) =~= t@);
        match first_ws_exec(&t) {
            Some(k) => {
                let rest = slice(&t, k + 1, t.len());
                assert(rest@ =~= t@.skip(k + 1));
                let command = trim_start_exec(&rest);
                if command.len() == 0 {
                    return None;
                }
                let schedule = slice(&t, 0, k);
                assert(schedule@ =~= t@.take(k as int));
                return Some(Job::Cron { schedule: to_string(&schedule), command: to_string(&command) });
            },
            None => {
                return None;
            },
        }
    }
    let tokens = words_exec(&t);
    if tokens.len() < 6 {
        return None;
    }
    assert(views(tokens@)[0] == tokens@[0]@);
    if !looks_like_cron_field(&tokens[0]) {
        return None;
    }
    let command = remainder_after_tokens(&t, 5);
    if command.as_str().is_empty() {
        return None;
    }
    assert(command@.len() != 0);
    Some(Job::Cron { schedule: join_first(&tokens, 5), command })
}

/// Parse `systemctl list-timers` output.
pub fn parse_timers(text: &str) -> (r: Vec<Job>)
    ensures
        jobs_view(r@) == timers_of(text@),
{
    let t = chars_of(text);
    let ls = lines_exec(&t);
    let ghost lv = views(ls@);
    let mut out: Vec<Job> = Vec::new();
    let mut i: usize = 0;
    while i < ls.len()
        invariant
            i <= ls.len(),
            lv == views(ls@),
            lv == lines(text@),
            jobs_view(out@) == lv.take(i as int).filter_map(timer_parser()),
        decreases ls.len() - i,
    {
        proof {
            lemma_filter_map_step(lv, timer_parser(), i as int);
        }
        assert(lv[i as int] == ls@[i as int]@);
        let ghost before = out@;
        match parse_timer_line(&ls[i]) {
            Some(j) => {
                out.push(j);
                assert(jobs_view(out@) =~= jobs_view(before).push(j@));
            },
            None => {},
        }
        i = i + 1;
    }
    assert(lv.take(ls.len() as int) =~= lv);
    out
}

/// Parse the current user's crontab.
pub fn parse_crontab(text: &str) -> (r: Vec<Job>)
    ensures
        jobs_view(r@) == cron_jobs_of(text@),
{
    let t = chars_of(text);
    let ls = lines_exec(&t);
    let ghost lv = views(ls@);
    let mut out: Vec<Job> = Vec::new();
    let mut i: usize = 0;
    while i < ls.len()
        invariant
            i <= ls.len(),
            lv == views(ls@),
            lv == lines(text@),
            jobs_view(out@) == lv.take(i as int).filter_map(cron_parser()),
        decreases ls.len() - i,
    {
        proof {
            lemma_filter_map_step(lv, cron_parser(), i as int);
        }
        assert(lv[i as int] == ls@[i as int]@);
        let ghost before = out@;
        match parse_cron_line(&ls[i]) {
            Some(j) => {
                out.push(j);
                assert(jobs_view(out@) =~= jobs_view(before).push(j@));
            },
            None => {},
        }
        i = i + 1;
    }
    assert(lv.take(ls.len() as int) =~= lv);
    out
}

fn copy_job(j: &Job) -> (r: Job)
    ensures
        r@ == j@,
{
    match j {
        Job::Timer { unit, activates, schedule } => Job::Timer {
            unit: unit.clone(),
            activates: activates.clone(),
            schedule: schedule.clone(),
        },
        Job::Cron { schedule, command } => Job::Cron { schedule: schedule.clone(), command: command.clone() },
    }
}

/// All scheduled jobs: the systemd timers, then the crontab entries. The
/// timers are required; the crontab is best-effort, and `None` (no crontab,
/// or `crontab` unavailable) contributes no job.
pub fn collect_jobs(timers_output: &str, crontab_output: Option<&str>) -> (r: Vec<Job>)
    ensures
        jobs_view(r@) == timers_of(timers_output@) + match crontab_output {
            Some(c) => cron_jobs_of(c@),
            None => Seq::<JobV>::empty(),
        },
{
    let mut jobs = parse_timers(timers_output);
    let ghost start = jobs_view(jobs@);
    match crontab_output {
        Some(c) => {
            let cron = parse_crontab(c);
            let ghost cv = jobs_view(cron@);
            let mut i: usize = 0;
            while i < cron.len()
                invariant
                    i <= cron.len(),
                    cv == jobs_view(cron@),
                    jobs_view(jobs@) == start + cv.take(i as int),
                decreases cron.len() - i,
            {
                let ghost before = jobs@;
                let j = copy_job(&cron[i]);
                jobs.push(j);
                assert(jobs_view(jobs@) =~= jobs_view(before).push(j@));
                assert(cv.take(i + 1) =~= cv.take(i as int).push(cv[i as int]));
                i = i + 1;
            }
            assert(cv.take(cron.len() as int) =~= cv);
        },
        None => {
            assert(jobs_view(jobs@) + Seq::<JobV>::empty() =~= jobs_view(jobs@));
        },
    }
    jobs
}

pub open spec fn job_jv(j: JobV) -> JsonV {
    match j {
        JobV::Timer { unit, activates, schedule } => JsonV::Object(
            seq![
                ("type"@, JsonV::Str("timer"@)),
                ("unit"@, JsonV::Str(unit)),
                ("activates"@, JsonV::Str(activates)),
                ("schedule"@, JsonV::Str(schedule)),
            ],
        ),
        JobV::Cron { schedule, command } => JsonV::Object(
            seq![
                ("type"@, JsonV::Str("cron"@)),
                ("schedule"@, JsonV::Str(schedule)),
                ("command"@, JsonV::Str(command)),
            ],
        ),
    }
}

fn job_json(j: &Job) -> (r: Json)
    ensures
        jv(r) == job_jv(j@),
{
    let mut e: Vec<(String, Json)> = Vec::new();
    match j {
        Job::Timer { unit, activates, schedule } => {
            push_member(&mut e, "type", jstr_lit("timer"));
            push_member(&mut e, "unit", jstr(unit));
            push_member(&mut e, "activates", jstr(activates));
            push_member(&mut e, "schedule", jstr(schedule));
            assert(jv_entries(e@) =~= seq![
                ("type"@, JsonV::Str("timer"@)),
                ("unit"@, JsonV::Str(unit@)),
                ("activates"@, JsonV::Str(activates@)),
                ("schedule"@, JsonV::Str(schedule@)),
            ]);
        },
        Job::Cron { schedule, command } => {
            push_member(&mut e, "type", jstr_lit("cron"));
            push_member(&mut e, "schedule", jstr(schedule));
            push_member(&mut e, "command", jstr(command));
            assert(jv_entries(e@) =~= seq![
                ("type"@, JsonV::Str("cron"@)),
                ("schedule"@, JsonV::Str(schedule@)),
                ("command"@, JsonV::Str(command@)),
            ]);
        },
    }
    Json::Object(e)
}

/// Build the structured JSON value: `{ timestamp, jobs: [...] }`.
pub fn to_json(jobs: &[Job], timestamp: &String) -> (r: Json)
    ensures
        jv(r) == listing_jv(timestamp@, "jobs"@, jobs_view(jobs@).map_values(|j: JobV| job_jv(j))),
{
    let mut items: Vec<Json> = Vec::new();
    let mut i: usize = 0;
    while i < jobs.len()
        invariant
            i <= jobs.len(),
            jv_items(items@) == jobs_view(jobs@).take(i as int).map_values(|j: JobV| job_jv(j)),
        decreases jobs.len() - i,
    {
        push_item(&mut items, job_json(&jobs[i]));
        assert(jobs_view(jobs@).take(i + 1).map_values(|j: JobV| job_jv(j)) =~= jobs_view(jobs@).take(i as int).map_values(|j: JobV| job_jv(j)).push(job_jv(jobs@[i as int]@)));
        i = i + 1;
    }
    assert(jobs_view(jobs@).take(jobs.len() as int) =~= jobs_view(jobs@));
    listing(timestamp, "jobs", items)
}

pub open spec fn job_row(j: JobV) -> Seq<Seq<char>> {
    match j {
        JobV::Timer { unit, activates, schedule } => seq!["timer"@, unit, schedule, activates],
        JobV::Cron { schedule, command } => seq!["cron"@, seq![], schedule, command],
    }
}

/// Build the human-readable table via the shared renderer.
pub fn to_table(jobs: &[Job]) -> (r: String)
    ensures
        r@ == table(
            seq!["Type"@, "Name"@, "Schedule"@, "Detail"@],
            jobs_view(jobs@).map_values(|j: JobV| job_row(j)),
            seq![Align::Left, Align::Left, Align::Left, Align::Left],
        ),
{
    let mut rows: Vec<Vec<String>> = Vec::new();
    let mut i: usize = 0;
    while i < jobs.len()
        invariant
            i <= jobs.len(),
            rows_view(rows@) == jobs_view(jobs@).take(i as int).map_values(|j: JobV| job_row(j)),
        decreases jobs.len() - i,
    {
        let row = match &jobs[i] {
            Job::Timer { unit, activates, schedule } => vec![
                string_of("timer"),
                unit.clone(),
                schedule.clone(),
                activates.clone(),
            ],
            Job::Cron { schedule, command } => vec![
                string_of("cron"),
                String::new(),
                schedule.clone(),
                command.clone(),
            ],
        };
        assert(cells_view(row) =~= job_row(jobs@[i as int]@));
        let ghost before = rows@;
        rows.push(row);
        assert(rows_view(rows@) =~= rows_view(before).push(job_row(jobs@[i as int]@)));
        assert(jobs_view(jobs@).take(i + 1).map_values(|j: JobV| job_row(j)) =~= jobs_view(jobs@).take(i as int).map_values(|j: JobV| job_row(j)).push(job_row(jobs@[i as int]@)));
        i = i + 1;
    }
    assert(jobs_view(jobs@).take(jobs.len() as int) =~= jobs_view(jobs@));
    let headers = ["Type", "Name", "Schedule", "Detail"];
    let align = [Align::Left, Align::Left, Align::Left, Align::Left];
    assert(headers_view(headers@) =~= seq!["Type"@, "Name"@, "Schedule"@, "Detail"@]);
    assert(align@ =~= seq![Align::Left, Align::Left, Align::Left, Align::Left]);
    render(&headers, &rows, &align)
}

} // verus!
