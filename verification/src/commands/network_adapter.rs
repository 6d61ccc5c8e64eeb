//! `get-network-adapter`: hardware network adapters (NICs) from `lspci -k`:
//! devices whose class is an Ethernet or Network controller, with the PCI
//! slot, the vendor and device description, and the kernel driver in use.
use vstd::prelude::*;
use crate::json::{jstr, jv, jv_entries, jv_items, listing, listing_jv, push_item, push_member, Json, JsonV};
use crate::table::{cells_view, headers_view, render, rows_view, table, Align};
use crate::text::{
    chars_of, eq_str, is_ws, is_ws_exec, lines, lines_exec, split_once, split_once_exec,
    split_once_str, split_once_str_exec, to_string, trim, trim_end, trim_end_exec, trim_exec, views,
};

verus! {

pub struct Adapter {
    pub slot: String,
    pub class: String,
    pub description: String,
    pub driver: String,
}

pub struct AdapterV {
    pub slot: Seq<char>,
    pub class: Seq<char>,
    pub description: Seq<char>,
    pub driver: Seq<char>,
}

impl View for Adapter {
    type V = AdapterV;

    open spec fn view(&self) -> AdapterV {
        AdapterV {
            slot: self.slot@,
            class: self.class@,
            description: self.description@,
            driver: self.driver@,
        }
    }
}

pub open spec fn adapters_view(v: Seq<Adapter>) -> Seq<AdapterV> {
    v.map_values(|a: Adapter| a@)
}

/// True if a PCI class string denotes a network adapter.
pub open spec fn network_class(class: Seq<char>) -> bool {
    class == "Ethernet controller"@ || class == "Network controller"@
}

/// True if a PCI class string denotes a network adapter.
pub fn is_network_class(class: &str) -> (r: bool)
    ensures
        r == network_class(class@),
{
    let c = chars_of(class);
    eq_str(&c, "Ethernet controller") || eq_str(&c, "Network controller")
}

/// The adapter a device header line `<slot> <class>: <description>` starts,
/// if its class is a network class.
pub open spec fn header_adapter(line: Seq<char>) -> Option<AdapterV> {
    match split_once(trim_end(line), ' ') {
        Some((slot, rest)) => match split_once_str(rest, ": "@) {
            Some((class, description)) => if network_class(trim(class)) {
                Some(AdapterV { slot, class: trim(class), description: trim(description), driver: seq![] })
            } else {
                None
            },
            None => None,
        },
        None => None,
    }
}

/// An adapter after one of its indented detail lines: a
/// `Kernel driver in use: <drv>` line sets the driver.
pub open spec fn with_detail(a: AdapterV, line: Seq<char>) -> AdapterV {
    match split_once(trim(line), ':') {
        Some((key, value)) => if trim(key) == "Kernel driver in use"@ {
            AdapterV { driver: trim(value), ..a }
        } else {
            a
        },
        None => a,
    }
}

pub open spec fn opt_seq<T>(o: Option<T>) -> Seq<T> {
    match o {
        Some(x) => seq![x],
        None => seq![],
    }
}

/// The adapters of `lspci -k` lines, with `cur` the adapter whose record is
/// under way. A non-indented line ends the current record and may start a new
/// one; indented lines add details to the current network adapter.
pub open spec fn adapters_from(ls: Seq<Seq<char>>, cur: Option<AdapterV>) -> Seq<AdapterV>
    decreases ls.len(),
{
    if ls.len() == 0 {
        opt_seq(cur)
    } else {
        let line = ls[0];
        if !(line.len() > 0 && is_ws(line[0])) {
            opt_seq(cur) + adapters_from(ls.drop_first(), header_adapter(line))
        } else {
            adapters_from(
                ls.drop_first(),
                match cur {
                    Some(a) => Some(with_detail(a, line)),
                    None => None,
                },
            )
        }
    }
}

fn parse_header(line: &Vec<char>) -> (r: Option<Adapter>)
    ensures
        match header_adapter(line@) {
            Some(a) => r is Some && r->0@ == a,
            None => r is None,
        },
{
    let trimmed = trim_end_exec(line);
    match split_once_exec(&trimmed, ' ') {
        Some((slot, rest)) => match split_once_str_exec(&rest, ": ") {
            Some((class, description)) => {
                let c = trim_exec(&class);
                let cs = to_string(&c);
                if is_network_class(cs.as_str()) {
                    Some(
                        Adapter {
                            slot: to_string(&slot),
                            class: cs,
                            description: to_string(&trim_exec(&description)),
                            driver: String::new(),
                        },
                    )
                } else {
                    None
                }
            },
            None => None,
        },
        None => None,
    }
}

fn apply_detail(a: &mut Adapter, line: &Vec<char>)
    ensures
        final(a)@ == with_detail(old(a)@, line@),
{
    let t = trim_exec(line);
    match split_once_exec(&t, ':') {
        Some((key, value)) => {
            let k = trim_exec(&key);
            if eq_str(&k, "Kernel driver in use") {
                a.driver = to_string(&trim_exec(&value));
            }
        },
        None => {},
    }
}

/// Parse `lspci -k` output into network adapters.
///
/// A device record starts at column 0 as `<slot> <class>: <description>`,
/// followed by indented detail lines such as `Kernel driver in use: <drv>`.
pub fn parse_lspci(text: &str) -> (r: Vec<Adapter>)
    ensures
        adapters_view(r@) == adapters_from(lines(text@), None),
{
    let t = chars_of(text);
    let ls = lines_exec(&t);
    let ghost lv = views(ls@);
    let mut adapters: Vec<Adapter> = Vec::new();
    let mut current: Option<Adapter> = None;
    let mut i: usize = 0;
    assert(lv.skip(0) =~= lv);
    while i < ls.len()
        invariant
            i <= ls.len(),
            lv == views(ls@),
            lv == lines(text@),
            adapters_view(adapters@) + adapters_from(
                lv.skip(i as int),
                match current {
                    Some(a) => Some(a@),
                    None => None,
                },
            ) == adapters_from(lv, None),
        decreases ls.len() - i,
    {
        let line = &ls[i];
        assert(lv.skip(i as int)[0] == line@);
        assert(lv.skip(i as int).drop_first() =~= lv.skip(i + 1));
        let indented = line.len() > 0 && is_ws_exec(line[0]);
        if !indented {
            let ghost before = adapters@;
            match current {
                Some(a) => {
                    adapters.push(a);
                    assert(adapters_view(adapters@) =~= adapters_view(before) + seq![a@]);
                },
                None => {
                    assert(adapters_view(adapters@) =~= adapters_view(before) + Seq::<AdapterV>::empty());
                },
            }
            current = parse_header(line);
        } else {
            match current {
                Some(mut a) => {
                    apply_detail(&mut a, line);
                    current = Some(a);
                },
                None => {},
            }
        }
        i = i + 1;
    }
    assert(lv.skip(i as int) =~= Seq::<Seq<char>>::empty());
    let ghost before = adapters@;
    match current {
        Some(a) => {
            adapters.push(a);
            assert(adapters_view(adapters@) =~= adapters_view(before) + seq![a@]);
        },
        None => {
            assert(adapters_view(adapters@) =~= adapters_view(before) + Seq::<AdapterV>::empty());
        },
    }
    adapters
}

pub open spec fn adapter_jv(a: AdapterV) -> JsonV {
    JsonV::Object(
        seq![
            ("slot"@, JsonV::Str(a.slot)),
            ("class"@, JsonV::Str(a.class)),
            ("description"@, JsonV::Str(a.description)),
            ("driver"@, JsonV::Str(a.driver)),
        ],
    )
}

/// Build the structured JSON value: `{ timestamp, adapters: [...] }`.
pub fn to_json(adapters: &[Adapter], timestamp: &String) -> (r: Json)
    ensures
        jv(r) == listing_jv(timestamp@, "adapters"@, adapters_view(adapters@).map_values(|a: AdapterV| adapter_jv(a))),
{
    let mut items: Vec<Json> = Vec::new();
    let mut i: usize = 0;
    while i < adapters.len()
        invariant
            i <= adapters.len(),
            jv_items(items@) == adapters_view(adapters@).take(i as int).map_values(|a: AdapterV| adapter_jv(a)),
        decreases adapters.len() - i,
    {
        let a = &adapters[i];
        let mut e: Vec<(String, Json)> = Vec::new();
        push_member(&mut e, "slot", jstr(&a.slot));
        push_member(&mut e, "class", jstr(&a.class));
        push_member(&mut e, "description", jstr(&a.description));
        push_member(&mut e, "driver", jstr(&a.driver));
        assert(jv_entries(e@) =~= seq![
            ("slot"@, JsonV::Str(a.slot@)),
            ("class"@, JsonV::Str(a.class@)),
            ("description"@, JsonV::Str(a.description@)),
            ("driver"@, JsonV::Str(a.driver@)),
        ]);
        push_item(&mut items, Json::Object(e));
        assert(adapters_view(adapters@).take(i + 1).map_values(|a: AdapterV| adapter_jv(a)) =~= adapters_view(adapters@).take(i as int).map_values(|a: AdapterV| adapter_jv(a)).push(adapter_jv(adapters@[i as int]@)));
        i = i + 1;
    }
    assert(adapters_view(adapters@).take(adapters.len() as int) =~= adapters_view(adapters@));
    listing(timestamp, "adapters", items)
}

pub open spec fn adapter_row(a: AdapterV) -> Seq<Seq<char>> {
    seq![a.slot, a.class, a.description, a.driver]
}

/// Build the human-readable table via the shared renderer.
pub fn to_table(adapters: &[Adapter]) -> (r: String)
    ensures
        r@ == table(
            seq!["Slot"@, "Class"@, "Description"@, "Driver"@],
            adapters_view(adapters@).map_values(|a: AdapterV| adapter_row(a)),
            seq![Align::Left, Align::Left, Align::Left, Align::Left],
        ),
{
    let mut rows: Vec<Vec<String>> = Vec::new();
    let mut i: usize = 0;
    while i < adapters.len()
        invariant
            i <= adapters.len(),
            rows_view(rows@) == adapters_view(adapters@).take(i as int).map_values(|a: AdapterV| adapter_row(a)),
        decreases adapters.len() - i,
    {
        let a = &adapters[i];
        let row = vec![a.slot.clone(), a.class.clone(), a.description.clone(), a.driver.clone()];
        assert(cells_view(row) =~= adapter_row(a@));
        let ghost before = rows@;
        rows.push(row);
        assert(rows_view(rows@) =~= rows_view(before).push(adapter_row(a@)));
        assert(adapters_view(adapters@).take(i + 1).map_values(|a: AdapterV| adapter_row(a)) =~= adapters_view(adapters@).take(i as int).map_values(|a: AdapterV| adapter_row(a)).push(adapter_row(adapters@[i as int]@)));
        i = i + 1;
    }
    assert(adapters_view(adapters@).take(adapters.len() as int) =~= adapters_view(adapters@));
    let headers = ["Slot", "Class", "Description", "Driver"];
    let align = [Align::Left, Align::Left, Align::Left, Align::Left];
    assert(headers_view(headers@) =~= seq!["Slot"@, "Class"@, "Description"@, "Driver"@]);
    assert(align@ =~= seq![Align::Left, Align::Left, Align::Left, Align::Left]);
    render(&headers, &rows, &align)
}

} // verus!
