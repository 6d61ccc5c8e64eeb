//! `get-cinnamon-applet`: enabled Cinnamon panel applets, from
//! `gsettings get org.cinnamon enabled-applets`, whose value is a GVariant
//! string-list literal such as
//! `['panel1:left:0:menu@cinnamon.org:0', 'panel1:left:1:separator@cinnamon.org:1']`.
use vstd::prelude::*;
use crate::commands::common::{parse_quoted_entries, quoted_entries};
use crate::json::{jstr, jv, jv_entries, jv_items, listing, listing_jv, push_item, push_member, Json, JsonV};
use crate::table::{cells_view, headers_view, render, rows_view, table, Align};
use crate::text::{chars_of, chars_of_string, splitn, splitn_exec, to_string, trim, trim_exec, views};

verus! {

/// One enabled applet, decomposed from its `panel:position:order:uuid:instance`
/// definition. Fields beyond the raw string are best-effort.
pub struct Applet {
    pub raw: String,
    pub panel: String,
    pub position: String,
    pub order: String,
    pub uuid: String,
    pub instance: String,
}

pub struct AppletV {
    pub raw: Seq<char>,
    pub panel: Seq<char>,
    pub position: Seq<char>,
    pub order: Seq<char>,
    pub uuid: Seq<char>,
    pub instance: Seq<char>,
}

impl View for Applet {
    type V = AppletV;

    open spec fn view(&self) -> AppletV {
        AppletV {
            raw: self.raw@,
            panel: self.panel@,
            position: self.position@,
            order: self.order@,
            uuid: self.uuid@,
            instance: self.instance@,
        }
    }
}

pub open spec fn applets_view(v: Seq<Applet>) -> Seq<AppletV> {
    v.map_values(|a: Applet| a@)
}

/// The `i`-th piece, or the empty text when there are fewer pieces.
pub open spec fn piece(f: Seq<Seq<char>>, i: int) -> Seq<char> {
    if 0 <= i < f.len() {
        f[i]
    } else {
        seq![]
    }
}

/// An applet definition split at its first four `:`.
pub open spec fn applet_of(raw: Seq<char>) -> AppletV {
    let f = splitn(raw, 5, ':');
    AppletV {
        raw,
        panel: piece(f, 0),
        position: piece(f, 1),
        order: piece(f, 2),
        uuid: piece(f, 3),
        instance: piece(f, 4),
    }
}

/// The applets of the `enabled-applets` value (surrounding whitespace
/// ignored), in order.
pub open spec fn applets_of(out: Seq<char>) -> Seq<AppletV> {
    quoted_entries(trim(out)).map_values(|raw: Seq<char>| applet_of(raw))
}

fn piece_exec(f: &Vec<Vec<char>>, i: usize) -> (r: String)
    ensures
        r@ == piece(views(f@), i as int),
{
    if i < f.len() {
        to_string(&f[i])
    } else {
        String::new()
    }
}

/// Decompose one applet definition.
pub fn applet_from_definition(raw: String) -> (r: Applet)
    ensures
        r@ == applet_of(raw@),
{
    let f = splitn_exec(&chars_of_string(&raw), 5, ':');
    Applet {
        panel: piece_exec(&f, 0),
        position: piece_exec(&f, 1),
        order: piece_exec(&f, 2),
        uuid: piece_exec(&f, 3),
        instance: piece_exec(&f, 4),
        raw,
    }
}

/// Parse the `gsettings get org.cinnamon enabled-applets` output.
pub fn parse_applets(out: &str) -> (r: Vec<Applet>)
    ensures
        applets_view(r@) == applets_of(out@),
{
    let entries = parse_quoted_entries(&trim_exec(&chars_of(out)));
    let ghost ev = entries@.map_values(|e: String| e@);
    let mut applets: Vec<Applet> = Vec::new();
    let mut i: usize = 0;
    while i < entries.len()
        invariant
            i <= entries.len(),
            ev == entries@.map_values(|e: String| e@),
            ev == quoted_entries(trim(out@)),
            applets_view(applets@) == ev.take(i as int).map_values(|raw: Seq<char>| applet_of(raw)),
        decreases entries.len() - i,
    {
        let a = applet_from_definition(entries[i].clone());
        let ghost before = applets@;
        applets.push(a);
        assert(applets_view(applets@) =~= applets_view(before).push(applet_of(ev[i as int])));
        assert(ev.take(i + 1).map_values(|raw: Seq<char>| applet_of(raw)) =~= ev.take(i as int).map_values(|raw: Seq<char>| applet_of(raw)).push(applet_of(ev[i as int])));
        i = i + 1;
    }
    assert(ev.take(entries.len() as int) =~= ev);
    applets
}

pub open spec fn applet_jv(a: AppletV) -> JsonV {
    JsonV::Object(
        seq![
            ("panel"@, JsonV::Str(a.panel)),
            ("position"@, JsonV::Str(a.position)),
            ("order"@, JsonV::Str(a.order)),
            ("uuid"@, JsonV::Str(a.uuid)),
            ("instance"@, JsonV::Str(a.instance)),
            ("definition"@, JsonV::Str(a.raw)),
        ],
    )
}

fn applet_json(a: &Applet) -> (r: Json)
    ensures
        jv(r) == applet_jv(a@),
{
    let mut e: Vec<(String, Json)> = Vec::new();
    push_member(&mut e, "panel", jstr(&a.panel));
    push_member(&mut e, "position", jstr(&a.position));
    push_member(&mut e, "order", jstr(&a.order));
    push_member(&mut e, "uuid", jstr(&a.uuid));
    push_member(&mut e, "instance", jstr(&a.instance));
    push_member(&mut e, "definition", jstr(&a.raw));
    assert(jv_entries(e@) =~= seq![
        ("panel"@, JsonV::Str(a.panel@)),
        ("position"@, JsonV::Str(a.position@)),
        ("order"@, JsonV::Str(a.order@)),
        ("uuid"@, JsonV::Str(a.uuid@)),
        ("instance"@, JsonV::Str(a.instance@)),
        ("definition"@, JsonV::Str(a.raw@)),
    ]);
    Json::Object(e)
}

/// Build the structured JSON value: `{ timestamp, applets: [...] }`.
pub fn to_json(applets: &[Applet], timestamp: &String) -> (r: Json)
    ensures
        jv(r) == listing_jv(timestamp@, "applets"@, applets_view(applets@).map_values(|a: AppletV| applet_jv(a))),
{
    let mut items: Vec<Json> = Vec::new();
    let mut i: usize = 0;
    while i < applets.len()
        invariant
            i <= applets.len(),
            jv_items(items@) == applets_view(applets@).take(i as int).map_values(|a: AppletV| applet_jv(a)),
        decreases applets.len() - i,
    {
        push_item(&mut items, applet_json(&applets[i]));
        assert(applets_view(applets@).take(i + 1).map_values(|a: AppletV| applet_jv(a)) =~= applets_view(applets@).take(i as int).map_values(|a: AppletV| applet_jv(a)).push(applet_jv(applets@[i as int]@)));
        i = i + 1;
    }
    assert(applets_view(applets@).take(applets.len() as int) =~= applets_view(applets@));
    listing(timestamp, "applets", items)
}

pub open spec fn applet_row(a: AppletV) -> Seq<Seq<char>> {
    seq![a.panel, a.position, a.order, a.uuid, a.instance]
}

/// Build the human-readable table.
pub fn to_table(applets: &[Applet]) -> (r: String)
    ensures
        r@ == table(
            seq!["Panel"@, "Position"@, "Order"@, "UUID"@, "Instance"@],
            applets_view(applets@).map_values(|a: AppletV| applet_row(a)),
            seq![Align::Left, Align::Left, Align::Right, Align::Left, Align::Right],
        ),
{
    let mut rows: Vec<Vec<String>> = Vec::new();
    let mut i: usize = 0;
    while i < applets.len()
        invariant
            i <= applets.len(),
            rows_view(rows@) == applets_view(applets@).take(i as int).map_values(|a: AppletV| applet_row(a)),
        decreases applets.len() - i,
    {
        let a = &applets[i];
        let row = vec![a.panel.clone(), a.position.clone(), a.order.clone(), a.uuid.clone(), a.instance.clone()];
        assert(cells_view(row) =~= applet_row(applets@[i as int]@));
        let ghost before = rows@;
        rows.push(row);
        assert(rows_view(rows@) =~= rows_view(before).push(applet_row(applets@[i as int]@)));
        assert(applets_view(applets@).take(i + 1).map_values(|a: AppletV| applet_row(a)) =~= applets_view(applets@).take(i as int).map_values(|a: AppletV| applet_row(a)).push(applet_row(applets@[i as int]@)));
        i = i + 1;
    }
    assert(applets_view(applets@).take(applets.len() as int) =~= applets_view(applets@));
    let headers = ["Panel", "Position", "Order", "UUID", "Instance"];
    let align = [Align::Left, Align::Left, Align::Right, Align::Left, Align::Right];
    assert(headers_view(headers@) =~= seq!["Panel"@, "Position"@, "Order"@, "UUID"@, "Instance"@]);
    assert(align@ =~= seq![Align::Left, Align::Left, Align::Right, Align::Left, Align::Right]);
    render(&headers, &rows, &align)
}

} // verus!
