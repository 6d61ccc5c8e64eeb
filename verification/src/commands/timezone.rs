//! `get-timezone`: system timezone and clock settings, from
//! `timedatectl show`, which prints one `KEY=Value` line per setting.
use vstd::prelude::*;
use crate::commands::common::{yes_no, yes_no_exec};
use crate::json::{jstr, jv, jv_entries, push_member, Json, JsonV};
use crate::parse::{key_value_pairs, last_value, last_value_or_empty, lemma_last_value_push, pairs_in_lines, pairs_view};
use crate::table::{cells_view, headers_view, render, rows_view, table, Align};
use crate::text::{chars_of, chars_of_string, eq_str, lines, lines_exec, string_of, to_string, views};

verus! {

pub struct Timezone {
    pub timezone: String,
    pub local_rtc: bool,
    pub can_ntp: bool,
    pub ntp: bool,
    pub ntp_synchronized: bool,
}

/// Whether the last assignment to `k` is `yes` (false when never assigned).
pub open spec fn flag(ps: Seq<(Seq<char>, Seq<char>)>, k: Seq<char>) -> bool {
    last_value(ps, k) == Some("yes"@)
}

/// The settings of `timedatectl show` output: for each key the last value
/// assigned to it wins; the timezone defaults to empty, the flags to false.
pub open spec fn timezone_of(text: Seq<char>, t: Timezone) -> bool {
    let ps = pairs_in_lines(lines(text));
    &&& t.timezone@ == last_value_or_empty(ps, "Timezone"@)
    &&& t.local_rtc == flag(ps, "LocalRTC"@)
    &&& t.can_ntp == flag(ps, "CanNTP"@)
    &&& t.ntp == flag(ps, "NTP"@)
    &&& t.ntp_synchronized == flag(ps, "NTPSynchronized"@)
}

/// Collect timezone/clock facts from `timedatectl show` output.
pub fn parse_timezone(text: &str) -> (r: Timezone)
    ensures
        timezone_of(text@, r),
{
    let t = chars_of(text);
    let ls = lines_exec(&t);
    let ghost lv = views(ls@);
    let mut timezone = String::new();
    let mut local_rtc = false;
    let mut can_ntp = false;
    let mut ntp = false;
    let mut ntp_synchronized = false;
    let mut i: usize = 0;
    while i < ls.len()
        invariant
            i <= ls.len(),
            lv == views(ls@),
            lv == lines(text@),
            ({
                let ps = pairs_in_lines(lv.take(i as int));
                &&& timezone@ == last_value_or_empty(ps, "Timezone"@)
                &&& local_rtc == flag(ps, "LocalRTC"@)
                &&& can_ntp == flag(ps, "CanNTP"@)
                &&& ntp == flag(ps, "NTP"@)
                &&& ntp_synchronized == flag(ps, "NTPSynchronized"@)
            }),
        decreases ls.len() - i,
    {
        let ghost done = pairs_in_lines(lv.take(i as int));
        assert(lv.take(i + 1).drop_last() =~= lv.take(i as int));
        assert(lv[i as int] == ls@[i as int]@);
        let line = to_string(&ls[i]);
        let pairs = key_value_pairs(line.as_str());
        let ghost pv = pairs_view(pairs@);
        let mut j: usize = 0;
        while j < pairs.len()
            invariant
                j <= pairs.len(),
                pv == pairs_view(pairs@),
                ({
                    let ps = done + pv.take(j as int);
                    &&& timezone@ == last_value_or_empty(ps, "Timezone"@)
                    &&& local_rtc == flag(ps, "LocalRTC"@)
                    &&& can_ntp == flag(ps, "CanNTP"@)
                    &&& ntp == flag(ps, "NTP"@)
                    &&& ntp_synchronized == flag(ps, "NTPSynchronized"@)
                }),
            decreases pairs.len() - j,
        {
            let ghost p = pv[j as int];
            proof {
                assert(done + pv.take(j + 1) =~= (done + pv.take(j as int)).push(p));
                lemma_last_value_push(done + pv.take(j as int), p, "Timezone"@);
                lemma_last_value_push(done + pv.take(j as int), p, "LocalRTC"@);
                lemma_last_value_push(done + pv.take(j as int), p, "CanNTP"@);
                lemma_last_value_push(done + pv.take(j as int), p, "NTP"@);
                lemma_last_value_push(done + pv.take(j as int), p, "NTPSynchronized"@);
            }
            let k = chars_of_string(&pairs[j].0);
            let v = chars_of_string(&pairs[j].1);
            let on = eq_str(&v, "yes");
            if eq_str(&k, "Timezone") {
                timezone = pairs[j].1.clone();
            } else if eq_str(&k, "LocalRTC") {
                local_rtc = on;
            } else if eq_str(&k, "CanNTP") {
                can_ntp = on;
            } else if eq_str(&k, "NTP") {
                ntp = on;
            } else if eq_str(&k, "NTPSynchronized") {
                ntp_synchronized = on;
            }
            proof {
                reveal_strlit("Timezone");
                reveal_strlit("LocalRTC");
                reveal_strlit("CanNTP");
                reveal_strlit("NTP");
                reveal_strlit("NTPSynchronized");
                assert("Timezone"@[0] == 'T' && "LocalRTC"@[0] == 'L' && "CanNTP"@[0] == 'C');
                assert("NTP"@[0] == 'N' && "NTPSynchronized"@[0] == 'N');
                assert("NTP"@.len() == 3 && "NTPSynchronized"@.len() == 15);
            }
            j = j + 1;
        }
        assert(pv.take(pairs.len() as int) =~= pv);
        i = i + 1;
    }
    assert(lv.take(ls.len() as int) =~= lv);
    Timezone { timezone, local_rtc, can_ntp, ntp, ntp_synchronized }
}

/// The document: a single object of timezone facts.
pub open spec fn timezone_jv(timestamp: Seq<char>, t: Timezone) -> JsonV {
    JsonV::Object(
        seq![
            ("timestamp"@, JsonV::Str(timestamp)),
            ("timezone"@, JsonV::Str(t.timezone@)),
            ("local_rtc"@, JsonV::Bool(t.local_rtc)),
            ("can_ntp"@, JsonV::Bool(t.can_ntp)),
            ("ntp"@, JsonV::Bool(t.ntp)),
            ("ntp_synchronized"@, JsonV::Bool(t.ntp_synchronized)),
        ],
    )
}

/// Build the structured JSON value (single object of timezone facts).
pub fn to_json(t: &Timezone, timestamp: &String) -> (r: Json)
    ensures
        jv(r) == timezone_jv(timestamp@, *t),
{
    let mut e: Vec<(String, Json)> = Vec::new();
    push_member(&mut e, "timestamp", jstr(timestamp));
    push_member(&mut e, "timezone", jstr(&t.timezone));
    push_member(&mut e, "local_rtc", Json::Bool(t.local_rtc));
    push_member(&mut e, "can_ntp", Json::Bool(t.can_ntp));
    push_member(&mut e, "ntp", Json::Bool(t.ntp));
    push_member(&mut e, "ntp_synchronized", Json::Bool(t.ntp_synchronized));
    assert(jv_entries(e@) =~= seq![
        ("timestamp"@, JsonV::Str(timestamp@)),
        ("timezone"@, JsonV::Str(t.timezone@)),
        ("local_rtc"@, JsonV::Bool(t.local_rtc)),
        ("can_ntp"@, JsonV::Bool(t.can_ntp)),
        ("ntp"@, JsonV::Bool(t.ntp)),
        ("ntp_synchronized"@, JsonV::Bool(t.ntp_synchronized)),
    ]);
    Json::Object(e)
}

pub open spec fn timezone_rows(t: Timezone) -> Seq<Seq<Seq<char>>> {
    seq![
        seq!["Timezone"@, t.timezone@],
        seq!["Local RTC"@, yes_no(t.local_rtc)],
        seq!["Can NTP"@, yes_no(t.can_ntp)],
        seq!["NTP"@, yes_no(t.ntp)],
        seq!["NTP Synchronized"@, yes_no(t.ntp_synchronized)],
    ]
}

/// Build the human-readable table via the shared renderer.
pub fn to_table(t: &Timezone) -> (r: String)
    ensures
        r@ == table(seq!["Field"@, "Value"@], timezone_rows(*t), seq![Align::Left, Align::Left]),
{
    let rows = vec![
        vec![string_of("Timezone"), t.timezone.clone()],
        vec![string_of("Local RTC"), yes_no_exec(t.local_rtc)],
        vec![string_of("Can NTP"), yes_no_exec(t.can_ntp)],
        vec![string_of("NTP"), yes_no_exec(t.ntp)],
        vec![string_of("NTP Synchronized"), yes_no_exec(t.ntp_synchronized)],
    ];
    assert(rows_view(rows@) =~= timezone_rows(*t)) by {
        assert(cells_view(rows@[0]) =~= timezone_rows(*t)[0]);
        assert(cells_view(rows@[1]) =~= timezone_rows(*t)[1]);
        assert(cells_view(rows@[2]) =~= timezone_rows(*t)[2]);
        assert(cells_view(rows@[3]) =~= timezone_rows(*t)[3]);
        assert(cells_view(rows@[4]) =~= timezone_rows(*t)[4]);
    }
    let headers = ["Field", "Value"];
    let align = [Align::Left, Align::Left];
    assert(headers_view(headers@) =~= seq!["Field"@, "Value"@]);
    assert(align@ =~= seq![Align::Left, Align::Left]);
    render(&headers, &rows, &align)
}

} // verus!
