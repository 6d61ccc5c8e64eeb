//! `get-memory`: system memory and swap usage in bytes, from
//! `/proc/meminfo` (locale-independent), with `used` computed the way
//! `free` computes it.
use vstd::prelude::*;
use crate::bytes::{human, human_text};
use crate::json::{jstr, jv, jv_entries, push_member, Json, JsonV};
use crate::table::{cells_view, headers_view, render, rows_view, table, Align};
use crate::text::{
    chars_of, chars_of_string, eq_str, lemma_filter_map_step, lines, lines_exec, parse_u64, parse_u64_exec,
    split_once, split_once_exec, string_of, to_string, views, words, words_exec,
};

verus! {

pub struct Memory {
    pub total: u64,
    pub used: u64,
    pub free: u64,
    pub available: u64,
    pub buffers: u64,
    pub cached: u64,
    pub shared: u64,
}

pub struct Swap {
    pub total: u64,
    pub used: u64,
    pub free: u64,
}

pub struct Report {
    pub timestamp: String,
    pub memory: Memory,
    pub swap: Swap,
}

/// One `/proc/meminfo` line such as `MemTotal:       16384000 kB`: the key
/// before the first `:` and the first token after it, read as a number of
/// kB. Lines whose first token is not a `u64` are skipped.
pub open spec fn meminfo_entry(line: Seq<char>) -> Option<(Seq<char>, u64)> {
    match split_once(line, ':') {
        Some((key, rest)) => {
            let w = words(rest);
            if w.len() > 0 {
                match parse_u64(w[0]) {
                    Some(kb) => Some((key, kb)),
                    None => None,
                }
            } else {
                None
            }
        },
        None => None,
    }
}

pub open spec fn meminfo_parser() -> spec_fn(Seq<char>) -> Option<(Seq<char>, u64)> {
    |l: Seq<char>| meminfo_entry(l)
}

/// The `(key, kB)` entries of `/proc/meminfo`, in order.
pub open spec fn meminfo_entries(text: Seq<char>) -> Seq<(Seq<char>, u64)> {
    lines(text).filter_map(meminfo_parser())
}

/// Every entry's size in bytes (`kB * 1024`) fits in a `u64`.
pub open spec fn meminfo_fits(text: Seq<char>) -> bool {
    let es = meminfo_entries(text);
    forall|i: int| 0 <= i < es.len() ==> #[trigger] es[i].1 * 1024 <= u64::MAX
}

/// The entries with their sizes in bytes.
pub open spec fn in_bytes(es: Seq<(Seq<char>, u64)>) -> Seq<(Seq<char>, u64)> {
    es.map_values(|e: (Seq<char>, u64)| (e.0, (e.1 * 1024) as u64))
}

pub open spec fn entries_view(v: Seq<(String, u64)>) -> Seq<(Seq<char>, u64)> {
    v.map_values(|e: (String, u64)| (e.0@, e.1))
}

fn meminfo_line(line: &Vec<char>) -> (r: Option<(String, u64)>)
    ensures
        match meminfo_entry(line@) {
            Some(e) => r is Some && (r->0).0@ == e.0 && (r->0).1 == e.1,
            None => r is None,
        },
{
    match split_once_exec(line, ':') {
        Some((key, rest)) => {
            let w = words_exec(&rest);
            if w.len() > 0 {
                assert(views(w@)[0] == w@[0]@);
                match parse_u64_exec(&w[0]) {
                    Some(kb) => Some((to_string(&key), kb)),
                    None => None,
                }
            } else {
                None
            }
        },
        None => None,
    }
}

/// Whether every size of `/proc/meminfo` fits in a `u64` once converted to
/// bytes (`parse_meminfo` requires it).
pub fn meminfo_in_range(text: &str) -> (r: bool)
    ensures
        r == meminfo_fits(text@),
{
    let ls = lines_exec(&chars_of(text));
    let ghost lv = views(ls@);
    let ghost es = meminfo_entries(text@);
    let mut n: usize = 0;
    let mut i: usize = 0;
    while i < ls.len()
        invariant
            i <= ls.len(),
            lv == views(ls@),
            lv == lines(text@),
            es == meminfo_entries(text@),
            n as int == lv.take(i as int).filter_map(meminfo_parser()).len(),
            n <= i,
            forall|k: int| 0 <= k < n ==> #[trigger] lv.take(i as int).filter_map(meminfo_parser())[k].1 * 1024 <= u64::MAX,
        decreases ls.len() - i,
    {
        proof {
            lemma_filter_map_step(lv, meminfo_parser(), i as int);
        }
        assert(lv[i as int] == ls@[i as int]@);
        match meminfo_line(&ls[i]) {
            Some((_k, kb)) => {
                if kb > 18014398509481983 {
                    proof {
                        let pre = lv.take(i + 1).filter_map(meminfo_parser());
                        assert(pre[n as int].1 == kb);
                        lemma_prefix_entries(lv, i + 1);
                        assert(es[n as int] == pre[n as int]);
                    }
                    return false;
                }
                n = n + 1;
            },
            None => {},
        }
        i = i + 1;
    }
    assert(lv.take(ls.len() as int) =~= lv);
    true
}

/// Lemma: the entries of the first `i` lines are the first entries of all lines.
proof fn lemma_prefix_entries(lv: Seq<Seq<char>>, i: int)
    requires
        0 <= i <= lv.len(),
    ensures
        lv.take(i).filter_map(meminfo_parser()).len() <= lv.filter_map(meminfo_parser()).len(),
        forall|k: int| 0 <= k < lv.take(i).filter_map(meminfo_parser()).len() ==>
            #[trigger] lv.take(i).filter_map(meminfo_parser())[k] == lv.filter_map(meminfo_parser())[k],
    decreases lv.len() - i,
{
    if i < lv.len() {
        lemma_prefix_entries(lv, i + 1);
        lemma_filter_map_step(lv, meminfo_parser(), i);
        let a = lv.take(i).filter_map(meminfo_parser());
        let b = lv.take(i + 1).filter_map(meminfo_parser());
        assert forall|k: int| 0 <= k < a.len() implies #[trigger] a[k] == lv.filter_map(meminfo_parser())[k] by {
            assert(a[k] == b[k]);
        }
    } else {
        assert(lv.take(i) =~= lv);
    }
}

/// Parse `/proc/meminfo` into `(key, bytes)` entries (the file reports kB).
pub fn parse_meminfo(text: &str) -> (r: Vec<(String, u64)>)
    requires
        meminfo_fits(text@),
    ensures
        entries_view(r@) == in_bytes(meminfo_entries(text@)),
{
    let ls = lines_exec(&chars_of(text));
    let ghost lv = views(ls@);
    let ghost es = meminfo_entries(text@);
    let mut out: Vec<(String, u64)> = Vec::new();
    let mut i: usize = 0;
    while i < ls.len()
        invariant
            i <= ls.len(),
            lv == views(ls@),
            lv == lines(text@),
            es == meminfo_entries(text@),
            meminfo_fits(text@),
            entries_view(out@) == in_bytes(lv.take(i as int).filter_map(meminfo_parser())),
        decreases ls.len() - i,
    {
        proof {
            lemma_filter_map_step(lv, meminfo_parser(), i as int);
        }
        assert(lv[i as int] == ls@[i as int]@);
        let ghost before = out@;
        match meminfo_line(&ls[i]) {
            Some((key, kb)) => {
                proof {
                    let pre = lv.take(i + 1).filter_map(meminfo_parser());
                    lemma_prefix_entries(lv, i + 1);
                    let n = lv.take(i as int).filter_map(meminfo_parser()).len();
                    assert(pre[n as int].1 == kb);
                    assert(es[n as int] == pre[n as int]);
                    assert(es[n as int].1 * 1024 <= u64::MAX);
                }
                let e = (key, kb * 1024);
                out.push(e);
                assert(entries_view(out@) =~= entries_view(before).push((e.0@, e.1)));
                assert(in_bytes(lv.take(i + 1).filter_map(meminfo_parser())) =~= in_bytes(lv.take(i as int).filter_map(meminfo_parser())).push((e.0@, e.1)));
            },
            None => {
                assert(in_bytes(lv.take(i + 1).filter_map(meminfo_parser())) =~= in_bytes(lv.take(i as int).filter_map(meminfo_parser())));
            },
        }
        i = i + 1;
    }
    assert(lv.take(ls.len() as int) =~= lv);
    out
}

/// The value of the last entry with key `k`, or 0 when there is none.
pub open spec fn entry_value(es: Seq<(Seq<char>, u64)>, k: Seq<char>) -> u64
    decreases es.len(),
{
    if es.len() == 0 {
        0
    } else if es.last().0 == k {
        es.last().1
    } else {
        entry_value(es.drop_last(), k)
    }
}

/// The value of field `key` (the last one given), or 0 when absent.
pub fn meminfo_get(entries: &Vec<(String, u64)>, key: &str) -> (r: u64)
    ensures
        r == entry_value(entries_view(entries@), key@),
{
    let ghost ev = entries_view(entries@);
    let mut i: usize = entries.len();
    assert(ev.take(i as int) =~= ev);
    while i > 0
        invariant
            i <= entries.len(),
            ev == entries_view(entries@),
            entry_value(ev, key@) == entry_value(ev.take(i as int), key@),
        decreases i,
    {
        assert(ev.take(i as int).drop_last() =~= ev.take(i - 1));
        assert(ev.take(i as int).last() == ev[i - 1]);
        if eq_str(&chars_of_string(&entries[i - 1].0), key) {
            return entries[i - 1].1;
        }
        i = i - 1;
    }
    0
}

/// `Cached + SReclaimable` (what `free` reports as cache).
pub open spec fn cached_of(es: Seq<(Seq<char>, u64)>) -> int {
    entry_value(es, "Cached"@) + entry_value(es, "SReclaimable"@)
}

/// The sums `memory_report` computes fit in a `u64`.
pub open spec fn report_fits(es: Seq<(Seq<char>, u64)>) -> bool {
    &&& cached_of(es) <= u64::MAX
    &&& entry_value(es, "MemFree"@) + entry_value(es, "Buffers"@) + cached_of(es) <= u64::MAX
}

/// Whether the sums of `memory_report` fit in a `u64` (it requires them to).
pub fn report_in_range(entries: &Vec<(String, u64)>) -> (r: bool)
    ensures
        r == report_fits(entries_view(entries@)),
{
    let cached = meminfo_get(entries, "Cached") as u128 + meminfo_get(entries, "SReclaimable") as u128;
    let sum = meminfo_get(entries, "MemFree") as u128 + meminfo_get(entries, "Buffers") as u128 + cached;
    cached <= 18446744073709551615u128 && sum <= 18446744073709551615u128
}

/// `a - b`, or 0 when `b > a` (`u64::saturating_sub`).
pub open spec fn sat_sub(a: int, b: int) -> int {
    if b > a {
        0
    } else {
        a - b
    }
}

/// The memory and swap figures of the `/proc/meminfo` entries, in bytes:
/// cached = Cached + SReclaimable; used = total - free - buffers - cached
/// (0 if negative); swap used = SwapTotal - SwapFree (0 if negative); an
/// absent field counts as 0.
pub open spec fn report_of(es: Seq<(Seq<char>, u64)>, r: Report) -> bool {
    let total = entry_value(es, "MemTotal"@);
    let free = entry_value(es, "MemFree"@);
    let buffers = entry_value(es, "Buffers"@);
    let swap_total = entry_value(es, "SwapTotal"@);
    let swap_free = entry_value(es, "SwapFree"@);
    &&& r.memory.total == total
    &&& r.memory.free == free
    &&& r.memory.buffers == buffers
    &&& r.memory.cached == cached_of(es)
    &&& r.memory.used == sat_sub(total as int, free + buffers + cached_of(es))
    &&& r.memory.available == entry_value(es, "MemAvailable"@)
    &&& r.memory.shared == entry_value(es, "Shmem"@)
    &&& r.swap.total == swap_total
    &&& r.swap.free == swap_free
    &&& r.swap.used == sat_sub(swap_total as int, swap_free as int)
}

/// Collect memory and swap, computing `used` the way `free` does.
pub fn memory_report(entries: &Vec<(String, u64)>, timestamp: String) -> (r: Report)
    requires
        report_fits(entries_view(entries@)),
    ensures
        report_of(entries_view(entries@), r),
        r.timestamp@ == timestamp@,
{
    let total = meminfo_get(entries, "MemTotal");
    let free = meminfo_get(entries, "MemFree");
    let buffers = meminfo_get(entries, "Buffers");
    let cached = meminfo_get(entries, "Cached") + meminfo_get(entries, "SReclaimable");
    let swap_total = meminfo_get(entries, "SwapTotal");
    let swap_free = meminfo_get(entries, "SwapFree");
    Report {
        timestamp,
        memory: Memory {
            total,
            used: total.saturating_sub(free + buffers + cached),
            free,
            available: meminfo_get(entries, "MemAvailable"),
            buffers,
            cached,
            shared: meminfo_get(entries, "Shmem"),
        },
        swap: Swap { total: swap_total, used: swap_total.saturating_sub(swap_free), free: swap_free },
    }
}

/// Law: the used figures never exceed the totals they are part of.
pub proof fn lemma_used_within_total(es: Seq<(Seq<char>, u64)>, r: Report)
    requires
        report_of(es, r),
    ensures
        r.memory.used <= r.memory.total,
        r.swap.used <= r.swap.total,
{
}

pub open spec fn memory_jv(m: Memory) -> JsonV {
    JsonV::Object(
        seq![
            ("total"@, JsonV::U64(m.total)),
            ("used"@, JsonV::U64(m.used)),
            ("free"@, JsonV::U64(m.free)),
            ("available"@, JsonV::U64(m.available)),
            ("buffers"@, JsonV::U64(m.buffers)),
            ("cached"@, JsonV::U64(m.cached)),
            ("shared"@, JsonV::U64(m.shared)),
        ],
    )
}

pub open spec fn swap_jv(s: Swap) -> JsonV {
    JsonV::Object(seq![("total"@, JsonV::U64(s.total)), ("used"@, JsonV::U64(s.used)), ("free"@, JsonV::U64(s.free))])
}

pub open spec fn report_jv(r: Report) -> JsonV {
    JsonV::Object(
        seq![
            ("timestamp"@, JsonV::Str(r.timestamp@)),
            ("unit"@, JsonV::Str("bytes"@)),
            ("memory"@, memory_jv(r.memory)),
            ("swap"@, swap_jv(r.swap)),
        ],
    )
}

/// Build the structured JSON value (all sizes in bytes).
pub fn to_json(r: &Report) -> (j: Json)
    ensures
        jv(j) == report_jv(*r),
{
    let m = &r.memory;
    let mut me: Vec<(String, Json)> = Vec::new();
    push_member(&mut me, "total", Json::U64(m.total));
    push_member(&mut me, "used", Json::U64(m.used));
    push_member(&mut me, "free", Json::U64(m.free));
    push_member(&mut me, "available", Json::U64(m.available));
    push_member(&mut me, "buffers", Json::U64(m.buffers));
    push_member(&mut me, "cached", Json::U64(m.cached));
    push_member(&mut me, "shared", Json::U64(m.shared));
    assert(jv_entries(me@) =~= seq![
        ("total"@, JsonV::U64(m.total)),
        ("used"@, JsonV::U64(m.used)),
        ("free"@, JsonV::U64(m.free)),
        ("available"@, JsonV::U64(m.available)),
        ("buffers"@, JsonV::U64(m.buffers)),
        ("cached"@, JsonV::U64(m.cached)),
        ("shared"@, JsonV::U64(m.shared)),
    ]);
    let mut se: Vec<(String, Json)> = Vec::new();
    push_member(&mut se, "total", Json::U64(r.swap.total));
    push_member(&mut se, "used", Json::U64(r.swap.used));
    push_member(&mut se, "free", Json::U64(r.swap.free));
    assert(jv_entries(se@) =~= seq![
        ("total"@, JsonV::U64(r.swap.total)),
        ("used"@, JsonV::U64(r.swap.used)),
        ("free"@, JsonV::U64(r.swap.free)),
    ]);
    let mut e: Vec<(String, Json)> = Vec::new();
    push_member(&mut e, "timestamp", jstr(&r.timestamp));
    push_member(&mut e, "unit", Json::Str(string_of("bytes")));
    push_member(&mut e, "memory", Json::Object(me));
    push_member(&mut e, "swap", Json::Object(se));
    assert(jv_entries(e@) =~= seq![
        ("timestamp"@, JsonV::Str(r.timestamp@)),
        ("unit"@, JsonV::Str("bytes"@)),
        ("memory"@, memory_jv(r.memory)),
        ("swap"@, swap_jv(r.swap)),
    ]);
    Json::Object(e)
}

/// The table rows: each figure with its size for humans.
pub open spec fn report_rows(r: Report) -> Seq<Seq<Seq<char>>> {
    seq![
        seq!["Total"@, human_text(r.memory.total as nat)],
        seq!["Used"@, human_text(r.memory.used as nat)],
        seq!["Free"@, human_text(r.memory.free as nat)],
        seq!["Available"@, human_text(r.memory.available as nat)],
        seq!["Buffers"@, human_text(r.memory.buffers as nat)],
        seq!["Cached"@, human_text(r.memory.cached as nat)],
        seq!["Shared"@, human_text(r.memory.shared as nat)],
        seq!["Swap Total"@, human_text(r.swap.total as nat)],
        seq!["Swap Used"@, human_text(r.swap.used as nat)],
        seq!["Swap Free"@, human_text(r.swap.free as nat)],
    ]
}

fn size_row(label: &str, n: u64) -> (r: Vec<String>)
    ensures
        cells_view(r) == seq![label@, human_text(n as nat)],
{
    let r = vec![string_of(label), human(n)];
    assert(cells_view(r) =~= seq![label@, human_text(n as nat)]);
    r
}

/// Build the human-readable table via the shared renderer.
pub fn to_table(r: &Report) -> (s: String)
    ensures
        s@ == table(seq!["Metric"@, "Size"@], report_rows(*r), seq![Align::Left, Align::Right]),
{
    let rows = vec![
        size_row("Total", r.memory.total),
        size_row("Used", r.memory.used),
        size_row("Free", r.memory.free),
        size_row("Available", r.memory.available),
        size_row("Buffers", r.memory.buffers),
        size_row("Cached", r.memory.cached),
        size_row("Shared", r.memory.shared),
        size_row("Swap Total", r.swap.total),
        size_row("Swap Used", r.swap.used),
        size_row("Swap Free", r.swap.free),
    ];
    assert(rows_view(rows@) =~= report_rows(*r));
    let headers = ["Metric", "Size"];
    let align = [Align::Left, Align::Right];
    assert(headers_view(headers@) =~= seq!["Metric"@, "Size"@]);
    assert(align@ =~= seq![Align::Left, Align::Right]);
    render(&headers, &rows, &align)
}

} // verus!
