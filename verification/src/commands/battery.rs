//! `get-battery`: battery status and charge, from the `uevent` files of the
//! power supplies under `/sys/class/power_supply` whose `type` reads
//! `Battery`.
//!
//! `energy_full` / `energy_now` are microwatt-hours and `capacity` is a
//! percentage: they stay raw integers, never byte sizes.
use vstd::prelude::*;
use crate::commands::common::{cell_u64, opt_u64_text, stable_order, stable_sort_order};
use crate::json::{jopt_u64, jstr, jv, jv_entries, jv_items, listing, listing_jv, opt_u64_jv, push_item, push_member, Json, JsonV};
use crate::parse::{last_value, last_value_or_empty, lemma_last_value_push, pairs_view};
use crate::table::{cells_view, headers_view, render, rows_view, table, Align};
use crate::text::{
    chars_of, chars_of_string, dec, eq, eq_str, lemma_filter_map_step, lines, lines_exec, parse_u64,
    parse_u64_exec, push_char, split_once, split_once_exec, string_of, to_string, trim, trim_exec,
    u64_to_string, views,
};

verus! {

pub struct Battery {
    pub name: String,
    pub status: String,
    pub capacity: Option<u64>,
    /// Microwatt-hours.
    pub energy_full: Option<u64>,
    /// Microwatt-hours.
    pub energy_now: Option<u64>,
    pub manufacturer: String,
    pub model_name: String,
}

pub struct BatteryV {
    pub name: Seq<char>,
    pub status: Seq<char>,
    pub capacity: Option<u64>,
    pub energy_full: Option<u64>,
    pub energy_now: Option<u64>,
    pub manufacturer: Seq<char>,
    pub model_name: Seq<char>,
}

impl View for Battery {
    type V = BatteryV;

    open spec fn view(&self) -> BatteryV {
        BatteryV {
            name: self.name@,
            status: self.status@,
            capacity: self.capacity,
            energy_full: self.energy_full,
            energy_now: self.energy_now,
            manufacturer: self.manufacturer@,
            model_name: self.model_name@,
        }
    }
}

pub open spec fn batteries_view(v: Seq<Battery>) -> Seq<BatteryV> {
    v.map_values(|b: Battery| b@)
}

/// One `uevent` line: `KEY=value` split at the first `=`, both sides trimmed.
pub open spec fn uevent_pair(line: Seq<char>) -> Option<(Seq<char>, Seq<char>)> {
    match split_once(line, '=') {
        Some((k, v)) => Some((trim(k), trim(v))),
        None => None,
    }
}

pub open spec fn uevent_parser() -> spec_fn(Seq<char>) -> Option<(Seq<char>, Seq<char>)> {
    |l: Seq<char>| uevent_pair(l)
}

/// The `KEY=value` pairs of a `uevent` file, in order; lines without `=` are
/// skipped. A key that occurs twice keeps its last value (see `last_value`).
pub open spec fn uevent_pairs(text: Seq<char>) -> Seq<(Seq<char>, Seq<char>)> {
    lines(text).filter_map(uevent_parser())
}

/// Parse a `uevent` file (one `KEY=value` pair per line).
pub fn parse_uevent(text: &str) -> (r: Vec<(String, String)>)
    ensures
        pairs_view(r@) == uevent_pairs(text@),
{
    let t = chars_of(text);
    let ls = lines_exec(&t);
    let ghost lv = views(ls@);
    let mut out: Vec<(String, String)> = Vec::new();
    let mut i: usize = 0;
    while i < ls.len()
        invariant
            i <= ls.len(),
            lv == views(ls@),
            lv == lines(text@),
            pairs_view(out@) == lv.take(i as int).filter_map(uevent_parser()),
        decreases ls.len() - i,
    {
        proof {
            lemma_filter_map_step(lv, uevent_parser(), i as int);
        }
        assert(lv[i as int] == ls@[i as int]@);
        let ghost before = out@;
        match split_once_exec(&ls[i], '=') {
            Some((k, v)) => {
                let p = (to_string(&trim_exec(&k)), to_string(&trim_exec(&v)));
                out.push(p);
                assert(pairs_view(out@) =~= pairs_view(before).push((p.0@, p.1@)));
            },
            None => {},
        }
        i = i + 1;
    }
    assert(lv.take(ls.len() as int) =~= lv);
    out
}

/// The last value given to `key` in `pairs`, if any.
pub fn uevent_get(pairs: &Vec<(String, String)>, key: &str) -> (r: Option<String>)
    ensures
        match last_value(pairs_view(pairs@), key@) {
            Some(v) => r is Some && r->0@ == v,
            None => r is None,
        },
{
    let ghost pv = pairs_view(pairs@);
    let mut i: usize = pairs.len();
    assert(pv.take(i as int) =~= pv);
    while i > 0
        invariant
            i <= pairs.len(),
            pv == pairs_view(pairs@),
            last_value(pv, key@) == last_value(pv.take(i as int), key@),
        decreases i,
    {
        let k = chars_of_string(&pairs[i - 1].0);
        assert(pv.take(i as int).drop_last() =~= pv.take(i - 1));
        assert(pv.take(i as int).last() == pv[i - 1]);
        if eq_str(&k, key) {
            return Some(pairs[i - 1].1.clone());
        }
        i = i - 1;
    }
    assert(pv.take(0).len() == 0);
    None
}

/// A numeric field: the last value given to `key`, parsed as `u64`.
pub open spec fn num_field(ps: Seq<(Seq<char>, Seq<char>)>, key: Seq<char>) -> Option<u64> {
    match last_value(ps, key) {
        Some(v) => parse_u64(v),
        None => None,
    }
}

/// The battery described by a `uevent` file. The name is
/// `POWER_SUPPLY_NAME`, or the entry's file name when that key is absent;
/// text fields default to empty, numeric ones to absent (also when the value
/// is not a `u64`).
pub open spec fn battery_of(uevent: Seq<char>, file_name: Seq<char>) -> BatteryV {
    let ps = uevent_pairs(uevent);
    BatteryV {
        name: match last_value(ps, "POWER_SUPPLY_NAME"@) {
            Some(n) => n,
            None => file_name,
        },
        status: last_value_or_empty(ps, "POWER_SUPPLY_STATUS"@),
        capacity: num_field(ps, "POWER_SUPPLY_CAPACITY"@),
        energy_full: num_field(ps, "POWER_SUPPLY_ENERGY_FULL"@),
        energy_now: num_field(ps, "POWER_SUPPLY_ENERGY_NOW"@),
        manufacturer: last_value_or_empty(ps, "POWER_SUPPLY_MANUFACTURER"@),
        model_name: last_value_or_empty(ps, "POWER_SUPPLY_MODEL_NAME"@),
    }
}

fn text_field(pairs: &Vec<(String, String)>, key: &str) -> (r: String)
    ensures
        r@ == last_value_or_empty(pairs_view(pairs@), key@),
{
    match uevent_get(pairs, key) {
        Some(v) => v,
        None => String::new(),
    }
}

fn num_field_exec(pairs: &Vec<(String, String)>, key: &str) -> (r: Option<u64>)
    ensures
        r == num_field(pairs_view(pairs@), key@),
{
    match uevent_get(pairs, key) {
        Some(v) => parse_u64_exec(&chars_of_string(&v)),
        None => None,
    }
}

/// The battery described by the `uevent` text of the power supply entry
/// `file_name` (an unreadable `uevent` reads as empty text).
pub fn battery_from_uevent(uevent: &str, file_name: &str) -> (r: Battery)
    ensures
        r@ == battery_of(uevent@, file_name@),
{
    let pairs = parse_uevent(uevent);
    let name = match uevent_get(&pairs, "POWER_SUPPLY_NAME") {
        Some(n) => n,
        None => string_of(file_name),
    };
    Battery {
        name,
        status: text_field(&pairs, "POWER_SUPPLY_STATUS"),
        capacity: num_field_exec(&pairs, "POWER_SUPPLY_CAPACITY"),
        energy_full: num_field_exec(&pairs, "POWER_SUPPLY_ENERGY_FULL"),
        energy_now: num_field_exec(&pairs, "POWER_SUPPLY_ENERGY_NOW"),
        manufacturer: text_field(&pairs, "POWER_SUPPLY_MANUFACTURER"),
        model_name: text_field(&pairs, "POWER_SUPPLY_MODEL_NAME"),
    }
}

/// Whether a power supply's `type` file describes a battery.
pub fn is_battery_type(type_text: &str) -> (r: bool)
    ensures
        r == (trim(type_text@) == "Battery"@),
{
    let t = trim_exec(&chars_of(type_text));
    eq_str(&t, "Battery")
}

fn copy_battery(b: &Battery) -> (r: Battery)
    ensures
        r@ == b@,
{
    Battery {
        name: b.name.clone(),
        status: b.status.clone(),
        capacity: b.capacity,
        energy_full: b.energy_full,
        energy_now: b.energy_now,
        manufacturer: b.manufacturer.clone(),
        model_name: b.model_name.clone(),
    }
}

pub open spec fn battery_names(bs: Seq<BatteryV>) -> Seq<Seq<char>> {
    bs.map_values(|b: BatteryV| b.name)
}

/// The batteries sorted by name; batteries with equal names keep their
/// relative order (a stable sort).
pub fn sort_by_name(batteries: &Vec<Battery>) -> (r: Vec<Battery>)
    ensures
        exists|order: Seq<int>|
            #![trigger stable_order(battery_names(batteries_view(batteries@)), order)]
            stable_order(battery_names(batteries_view(batteries@)), order) && batteries_view(r@)
                == order.map_values(|k: int| batteries_view(batteries@)[k]),
{
    let ghost bv = batteries_view(batteries@);
    let mut keys: Vec<Vec<char>> = Vec::new();
    let mut i: usize = 0;
    while i < batteries.len()
        invariant
            i <= batteries.len(),
            bv == batteries_view(batteries@),
            views(keys@) == battery_names(bv).take(i as int),
        decreases batteries.len() - i,
    {
        let ghost before = keys@;
        keys.push(chars_of_string(&batteries[i].name));
        assert(views(keys@) =~= views(before).push(bv[i as int].name));
        assert(battery_names(bv).take(i + 1) =~= battery_names(bv).take(i as int).push(bv[i as int].name));
        i = i + 1;
    }
    assert(battery_names(bv).take(batteries.len() as int) =~= battery_names(bv));
    let order = stable_sort_order(&keys);
    let ghost ord = order@.map_values(|k: usize| k as int);
    let mut out: Vec<Battery> = Vec::new();
    let mut j: usize = 0;
    while j < order.len()
        invariant
            j <= order.len(),
            bv == batteries_view(batteries@),
            ord == order@.map_values(|k: usize| k as int),
            stable_order(battery_names(bv), ord),
            batteries_view(out@) == ord.take(j as int).map_values(|k: int| bv[k]),
        decreases order.len() - j,
    {
        let k = order[j];
        assert(ord[j as int] == k as int);
        let b = copy_battery(&batteries[k]);
        let ghost before = out@;
        out.push(b);
        assert(batteries_view(out@) =~= batteries_view(before).push(bv[k as int]));
        assert(ord.take(j + 1).map_values(|k: int| bv[k]) =~= ord.take(j as int).map_values(|k: int| bv[k]).push(bv[k as int]));
        j = j + 1;
    }
    assert(ord.take(order.len() as int) =~= ord);
    out
}

pub open spec fn battery_jv(b: BatteryV) -> JsonV {
    JsonV::Object(
        seq![
            ("name"@, JsonV::Str(b.name)),
            ("status"@, JsonV::Str(b.status)),
            ("capacity"@, opt_u64_jv(b.capacity)),
            ("energy_full"@, opt_u64_jv(b.energy_full)),
            ("energy_now"@, opt_u64_jv(b.energy_now)),
            ("manufacturer"@, JsonV::Str(b.manufacturer)),
            ("model_name"@, JsonV::Str(b.model_name)),
        ],
    )
}

fn battery_json(b: &Battery) -> (r: Json)
    ensures
        jv(r) == battery_jv(b@),
{
    let mut e: Vec<(String, Json)> = Vec::new();
    push_member(&mut e, "name", jstr(&b.name));
    push_member(&mut e, "status", jstr(&b.status));
    push_member(&mut e, "capacity", jopt_u64(b.capacity));
    push_member(&mut e, "energy_full", jopt_u64(b.energy_full));
    push_member(&mut e, "energy_now", jopt_u64(b.energy_now));
    push_member(&mut e, "manufacturer", jstr(&b.manufacturer));
    push_member(&mut e, "model_name", jstr(&b.model_name));
    assert(jv_entries(e@) =~= seq![
        ("name"@, JsonV::Str(b.name@)),
        ("status"@, JsonV::Str(b.status@)),
        ("capacity"@, opt_u64_jv(b.capacity)),
        ("energy_full"@, opt_u64_jv(b.energy_full)),
        ("energy_now"@, opt_u64_jv(b.energy_now)),
        ("manufacturer"@, JsonV::Str(b.manufacturer@)),
        ("model_name"@, JsonV::Str(b.model_name@)),
    ]);
    Json::Object(e)
}

/// Build the structured JSON value: `{ timestamp, batteries: [...] }`.
pub fn to_json(batteries: &[Battery], timestamp: &String) -> (r: Json)
    ensures
        jv(r) == listing_jv(timestamp@, "batteries"@, batteries_view(batteries@).map_values(|b: BatteryV| battery_jv(b))),
{
    let mut items: Vec<Json> = Vec::new();
    let mut i: usize = 0;
    while i < batteries.len()
        invariant
            i <= batteries.len(),
            jv_items(items@) == batteries_view(batteries@).take(i as int).map_values(|b: BatteryV| battery_jv(b)),
        decreases batteries.len() - i,
    {
        push_item(&mut items, battery_json(&batteries[i]));
        assert(batteries_view(batteries@).take(i + 1).map_values(|b: BatteryV| battery_jv(b)) =~= batteries_view(batteries@).take(i as int).map_values(|b: BatteryV| battery_jv(b)).push(battery_jv(batteries@[i as int]@)));
        i = i + 1;
    }
    assert(batteries_view(batteries@).take(batteries.len() as int) =~= batteries_view(batteries@));
    listing(timestamp, "batteries", items)
}

/// The capacity cell: `N%`, or `-` when unknown.
pub open spec fn capacity_text(c: Option<u64>) -> Seq<char> {
    match c {
        Some(v) => dec(v as nat).push('%'),
        None => "-"@,
    }
}

fn capacity_cell(c: Option<u64>) -> (r: String)
    ensures
        r@ == capacity_text(c),
{
    match c {
        Some(v) => {
            let mut s = u64_to_string(v);
            push_char(&mut s, '%');
            s
        },
        None => string_of("-"),
    }
}

pub open spec fn battery_row(b: BatteryV) -> Seq<Seq<char>> {
    seq![
        b.name,
        b.status,
        capacity_text(b.capacity),
        opt_u64_text(b.energy_full),
        opt_u64_text(b.energy_now),
        b.manufacturer,
        b.model_name,
    ]
}

/// Build the human-readable table via the shared renderer.
pub fn to_table(batteries: &[Battery]) -> (r: String)
    ensures
        r@ == table(
            seq!["Name"@, "Status"@, "Capacity"@, "Energy Full (µWh)"@, "Energy Now (µWh)"@, "Manufacturer"@, "Model"@],
            batteries_view(batteries@).map_values(|b: BatteryV| battery_row(b)),
            seq![Align::Left, Align::Left, Align::Right, Align::Right, Align::Right, Align::Left, Align::Left],
        ),
{
    let mut rows: Vec<Vec<String>> = Vec::new();
    let mut i: usize = 0;
    while i < batteries.len()
        invariant
            i <= batteries.len(),
            rows_view(rows@) == batteries_view(batteries@).take(i as int).map_values(|b: BatteryV| battery_row(b)),
        decreases batteries.len() - i,
    {
        let b = &batteries[i];
        let row = vec![
            b.name.clone(),
            b.status.clone(),
            capacity_cell(b.capacity),
            cell_u64(b.energy_full),
            cell_u64(b.energy_now),
            b.manufacturer.clone(),
            b.model_name.clone(),
        ];
        assert(cells_view(row) =~= battery_row(batteries@[i as int]@));
        let ghost before = rows@;
        rows.push(row);
        assert(rows_view(rows@) =~= rows_view(before).push(battery_row(batteries@[i as int]@)));
        assert(batteries_view(batteries@).take(i + 1).map_values(|b: BatteryV| battery_row(b)) =~= batteries_view(batteries@).take(i as int).map_values(|b: BatteryV| battery_row(b)).push(battery_row(batteries@[i as int]@)));
        i = i + 1;
    }
    assert(batteries_view(batteries@).take(batteries.len() as int) =~= batteries_view(batteries@));
    let headers = ["Name", "Status", "Capacity", "Energy Full (µWh)", "Energy Now (µWh)", "Manufacturer", "Model"];
    let align = [Align::Left, Align::Left, Align::Right, Align::Right, Align::Right, Align::Left, Align::Left];
    assert(headers_view(headers@) =~= seq!["Name"@, "Status"@, "Capacity"@, "Energy Full (µWh)"@, "Energy Now (µWh)"@, "Manufacturer"@, "Model"@]);
    assert(align@ =~= seq![Align::Left, Align::Left, Align::Right, Align::Right, Align::Right, Align::Left, Align::Left]);
    render(&headers, &rows, &align)
}

} // verus!
