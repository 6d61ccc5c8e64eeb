//! `get-service`: systemd service units, from
//! `systemctl list-units --type=service --all --plain --no-legend`.
use vstd::prelude::*;
use crate::commands::common::{remainder_after_tokens, text_after_words};
use crate::json::{jstr, jv, jv_entries, jv_items, listing, listing_jv, push_item, push_member, Json, JsonV};
use crate::table::{cells_view, headers_view, render, rows_view, table, Align};
use crate::text::{chars_of, lemma_filter_map_step, lines, lines_exec, to_string, views, words, words_exec};

verus! {

pub struct Service {
    pub unit: String,
    pub load: String,
    pub active: String,
    pub sub: String,
    pub description: String,
}

pub struct ServiceV {
    pub unit: Seq<char>,
    pub load: Seq<char>,
    pub active: Seq<char>,
    pub sub: Seq<char>,
    pub description: Seq<char>,
}

impl View for Service {
    type V = ServiceV;

    open spec fn view(&self) -> ServiceV {
        ServiceV {
            unit: self.unit@,
            load: self.load@,
            active: self.active@,
            sub: self.sub@,
            description: self.description@,
        }
    }
}

pub open spec fn services_view(v: Seq<Service>) -> Seq<ServiceV> {
    v.map_values(|s: Service| s@)
}

/// `UNIT LOAD ACTIVE SUB DESCRIPTION`: the first four columns are single
/// tokens, the description is the rest of the line (it may hold spaces).
/// Lines with fewer than four tokens hold no unit.
pub open spec fn service_line(line: Seq<char>) -> Option<ServiceV> {
    let t = words(line);
    if t.len() < 4 {
        None
    } else {
        Some(
            ServiceV {
                unit: t[0],
                load: t[1],
                active: t[2],
                sub: t[3],
                description: text_after_words(line, 4),
            },
        )
    }
}

pub open spec fn service_parser() -> spec_fn(Seq<char>) -> Option<ServiceV> {
    |l: Seq<char>| service_line(l)
}

/// The units listed by `systemctl list-units`, in order.
pub open spec fn services_of(text: Seq<char>) -> Seq<ServiceV> {
    lines(text).filter_map(service_parser())
}

fn parse_service_line(line: &Vec<char>) -> (r: Option<Service>)
    ensures
        match service_line(line@) {
            Some(s) => r is Some && r->0@ == s,
            None => r is None,
        },
{
    let t = words_exec(line);
    if t.len() < 4 {
        return None;
    }
    assert(views(t@)[0] == t@[0]@);
    assert(views(t@)[1] == t@[1]@);
    assert(views(t@)[2] == t@[2]@);
    assert(views(t@)[3] == t@[3]@);
    Some(
        Service {
            unit: to_string(&t[0]),
            load: to_string(&t[1]),
            active: to_string(&t[2]),
            sub: to_string(&t[3]),
            description: remainder_after_tokens(line, 4),
        },
    )
}

/// Parse `systemctl list-units` output.
pub fn parse_services(text: &str) -> (r: Vec<Service>)
    ensures
        services_view(r@) == services_of(text@),
{
    let t = chars_of(text);
    let ls = lines_exec(&t);
    let ghost lv = views(ls@);
    let mut out: Vec<Service> = Vec::new();
    let mut i: usize = 0;
    while i < ls.len()
        invariant
            i <= ls.len(),
            lv == views(ls@),
            lv == lines(text@),
            services_view(out@) == lv.take(i as int).filter_map(service_parser()),
        decreases ls.len() - i,
    {
        proof {
            lemma_filter_map_step(lv, service_parser(), i as int);
        }
        assert(lv[i as int] == ls@[i as int]@);
        let ghost before = out@;
        match parse_service_line(&ls[i]) {
            Some(s) => {
                out.push(s);
                assert(services_view(out@) =~= services_view(before).push(s@));
            },
            None => {},
        }
        i = i + 1;
    }
    assert(lv.take(ls.len() as int) =~= lv);
    out
}

pub open spec fn service_jv(s: ServiceV) -> JsonV {
    JsonV::Object(
        seq![
            ("unit"@, JsonV::Str(s.unit)),
            ("load"@, JsonV::Str(s.load)),
            ("active"@, JsonV::Str(s.active)),
            ("sub"@, JsonV::Str(s.sub)),
            ("description"@, JsonV::Str(s.description)),
        ],
    )
}

/// Build the structured JSON value: `{ timestamp, services: [...] }`.
pub fn to_json(services: &[Service], timestamp: &String) -> (r: Json)
    ensures
        jv(r) == listing_jv(timestamp@, "services"@, services_view(services@).map_values(|s: ServiceV| service_jv(s))),
{
    let mut items: Vec<Json> = Vec::new();
    let mut i: usize = 0;
    while i < services.len()
        invariant
            i <= services.len(),
            jv_items(items@) == services_view(services@).take(i as int).map_values(|s: ServiceV| service_jv(s)),
        decreases services.len() - i,
    {
        let s = &services[i];
        let mut e: Vec<(String, Json)> = Vec::new();
        push_member(&mut e, "unit", jstr(&s.unit));
        push_member(&mut e, "load", jstr(&s.load));
        push_member(&mut e, "active", jstr(&s.active));
        push_member(&mut e, "sub", jstr(&s.sub));
        push_member(&mut e, "description", jstr(&s.description));
        assert(jv_entries(e@) =~= seq![
            ("unit"@, JsonV::Str(s.unit@)),
            ("load"@, JsonV::Str(s.load@)),
            ("active"@, JsonV::Str(s.active@)),
            ("sub"@, JsonV::Str(s.sub@)),
            ("description"@, JsonV::Str(s.description@)),
        ]);
        push_item(&mut items, Json::Object(e));
        assert(services_view(services@).take(i + 1).map_values(|s: ServiceV| service_jv(s)) =~= services_view(services@).take(i as int).map_values(|s: ServiceV| service_jv(s)).push(service_jv(services@[i as int]@)));
        i = i + 1;
    }
    assert(services_view(services@).take(services.len() as int) =~= services_view(services@));
    listing(timestamp, "services", items)
}

pub open spec fn service_row(s: ServiceV) -> Seq<Seq<char>> {
    seq![s.unit, s.load, s.active, s.sub, s.description]
}

/// Build the human-readable table via the shared renderer.
pub fn to_table(services: &[Service]) -> (r: String)
    ensures
        r@ == table(
            seq!["Unit"@, "Load"@, "Active"@, "Sub"@, "Description"@],
            services_view(services@).map_values(|s: ServiceV| service_row(s)),
            seq![Align::Left, Align::Left, Align::Left, Align::Left, Align::Left],
        ),
{
    let mut rows: Vec<Vec<String>> = Vec::new();
    let mut i: usize = 0;
    while i < services.len()
        invariant
            i <= services.len(),
            rows_view(rows@) == services_view(services@).take(i as int).map_values(|s: ServiceV| service_row(s)),
        decreases services.len() - i,
    {
        let s = &services[i];
        let row = vec![s.unit.clone(), s.load.clone(), s.active.clone(), s.sub.clone(), s.description.clone()];
        assert(cells_view(row) =~= service_row(s@));
        let ghost before = rows@;
        rows.push(row);
        assert(rows_view(rows@) =~= rows_view(before).push(service_row(s@)));
        assert(services_view(services@).take(i + 1).map_values(|s: ServiceV| service_row(s)) =~= services_view(services@).take(i as int).map_values(|s: ServiceV| service_row(s)).push(service_row(services@[i as int]@)));
        i = i + 1;
    }
    assert(services_view(services@).take(services.len() as int) =~= services_view(services@));
    let headers = ["Unit", "Load", "Active", "Sub", "Description"];
    let align = [Align::Left, Align::Left, Align::Left, Align::Left, Align::Left];
    assert(headers_view(headers@) =~= seq!["Unit"@, "Load"@, "Active"@, "Sub"@, "Description"@]);
    assert(align@ =~= seq![Align::Left, Align::Left, Align::Left, Align::Left, Align::Left]);
    render(&headers, &rows, &align)
}

} // verus!
