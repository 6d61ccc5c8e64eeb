//! `get-usb`: connected USB devices, from `lsusb`, one device per line:
//! `Bus BBB Device DDD: ID vvvv:pppp Description`.
use vstd::prelude::*;
use crate::commands::common::{join_from, trim_end_char, trim_end_char_exec};
use crate::json::{jstr, jv, jv_entries, jv_items, listing, listing_jv, push_item, push_member, Json, JsonV};
use crate::table::{cells_view, headers_view, render, rows_view, table, Align};
use crate::text::{
    chars_of, eq_str, join, lemma_filter_map_step, lines, lines_exec, split_once, split_once_exec,
    to_string, views, words, words_exec,
};

verus! {

pub struct UsbDevice {
    pub bus: String,
    pub device: String,
    pub vendor_id: String,
    pub product_id: String,
    pub id: String,
    pub description: String,
}

pub struct UsbDeviceV {
    pub bus: Seq<char>,
    pub device: Seq<char>,
    pub vendor_id: Seq<char>,
    pub product_id: Seq<char>,
    pub id: Seq<char>,
    pub description: Seq<char>,
}

impl View for UsbDevice {
    type V = UsbDeviceV;

    open spec fn view(&self) -> UsbDeviceV {
        UsbDeviceV {
            bus: self.bus@,
            device: self.device@,
            vendor_id: self.vendor_id@,
            product_id: self.product_id@,
            id: self.id@,
            description: self.description@,
        }
    }
}

pub open spec fn devices_view(v: Seq<UsbDevice>) -> Seq<UsbDeviceV> {
    v.map_values(|d: UsbDevice| d@)
}

/// One `lsusb` line, or `None` if malformed: it needs at least six tokens,
/// with `Bus`, `Device` and `ID` in the first, third and fifth places. The
/// device number loses its trailing colons, the `vvvv:pppp` id splits at its
/// first colon (both halves empty without one), and the description is the
/// remaining tokens joined by single spaces.
pub open spec fn usb_line(line: Seq<char>) -> Option<UsbDeviceV> {
    let f = words(line);
    if f.len() < 6 || f[0] != "Bus"@ || f[2] != "Device"@ || f[4] != "ID"@ {
        None
    } else {
        let (v, p) = match split_once(f[5], ':') {
            Some((a, b)) => (a, b),
            None => (seq![], seq![]),
        };
        Some(
            UsbDeviceV {
                bus: f[1],
                device: trim_end_char(f[3], ':'),
                vendor_id: v,
                product_id: p,
                id: f[5],
                description: join(f.skip(6), seq![' ']),
            },
        )
    }
}

pub open spec fn usb_parser() -> spec_fn(Seq<char>) -> Option<UsbDeviceV> {
    |l: Seq<char>| usb_line(l)
}

/// The devices listed by `lsusb`, in order.
pub open spec fn usb_devices_of(text: Seq<char>) -> Seq<UsbDeviceV> {
    lines(text).filter_map(usb_parser())
}

/// Parse a single `lsusb` line into a `UsbDevice`, or `None` if malformed.
pub fn parse_line(line: &str) -> (r: Option<UsbDevice>)
    ensures
        match usb_line(line@) {
            Some(d) => r is Some && r->0@ == d,
            None => r is None,
        },
{
    let l = chars_of(line);
    parse_line_chars(&l)
}

fn parse_line_chars(line: &Vec<char>) -> (r: Option<UsbDevice>)
    ensures
        match usb_line(line@) {
            Some(d) => r is Some && r->0@ == d,
            None => r is None,
        },
{
    let f = words_exec(line);
    if f.len() < 6 {
        return None;
    }
    assert(views(f@)[0] == f@[0]@);
    assert(views(f@)[1] == f@[1]@);
    assert(views(f@)[2] == f@[2]@);
    assert(views(f@)[3] == f@[3]@);
    assert(views(f@)[4] == f@[4]@);
    assert(views(f@)[5] == f@[5]@);
    if !eq_str(&f[0], "Bus") || !eq_str(&f[2], "Device") || !eq_str(&f[4], "ID") {
        return None;
    }
    let (vendor_id, product_id) = match split_once_exec(&f[5], ':') {
        Some((a, b)) => (to_string(&a), to_string(&b)),
        None => (to_string(&Vec::new()), to_string(&Vec::new())),
    };
    Some(
        UsbDevice {
            bus: to_string(&f[1]),
            device: to_string(&trim_end_char_exec(&f[3], ':')),
            vendor_id,
            product_id,
            id: to_string(&f[5]),
            description: join_from(&f, 6),
        },
    )
}

/// Parse `lsusb` output, skipping malformed lines.
pub fn parse_devices(text: &str) -> (r: Vec<UsbDevice>)
    ensures
        devices_view(r@) == usb_devices_of(text@),
{
    let t = chars_of(text);
    let ls = lines_exec(&t);
    let ghost lv = views(ls@);
    let mut out: Vec<UsbDevice> = Vec::new();
    let mut i: usize = 0;
    while i < ls.len()
        invariant
            i <= ls.len(),
            lv == views(ls@),
            lv == lines(text@),
            devices_view(out@) == lv.take(i as int).filter_map(usb_parser()),
        decreases ls.len() - i,
    {
        proof {
            lemma_filter_map_step(lv, usb_parser(), i as int);
        }
        assert(lv[i as int] == ls@[i as int]@);
        let ghost before = out@;
        match parse_line_chars(&ls[i]) {
            Some(d) => {
                out.push(d);
                assert(devices_view(out@) =~= devices_view(before).push(d@));
            },
            None => {},
        }
        i = i + 1;
    }
    assert(lv.take(ls.len() as int) =~= lv);
    out
}

pub open spec fn device_jv(d: UsbDeviceV) -> JsonV {
    JsonV::Object(
        seq![
            ("bus"@, JsonV::Str(d.bus)),
            ("device"@, JsonV::Str(d.device)),
            ("vendor_id"@, JsonV::Str(d.vendor_id)),
            ("product_id"@, JsonV::Str(d.product_id)),
            ("id"@, JsonV::Str(d.id)),
            ("description"@, JsonV::Str(d.description)),
        ],
    )
}

/// Build the structured JSON value: `{ timestamp, devices: [...] }`.
pub fn to_json(devices: &[UsbDevice], timestamp: &String) -> (r: Json)
    ensures
        jv(r) == listing_jv(timestamp@, "devices"@, devices_view(devices@).map_values(|d: UsbDeviceV| device_jv(d))),
{
    let mut items: Vec<Json> = Vec::new();
    let mut i: usize = 0;
    while i < devices.len()
        invariant
            i <= devices.len(),
            jv_items(items@) == devices_view(devices@).take(i as int).map_values(|d: UsbDeviceV| device_jv(d)),
        decreases devices.len() - i,
    {
        let d = &devices[i];
        let mut e: Vec<(String, Json)> = Vec::new();
        push_member(&mut e, "bus", jstr(&d.bus));
        push_member(&mut e, "device", jstr(&d.device));
        push_member(&mut e, "vendor_id", jstr(&d.vendor_id));
        push_member(&mut e, "product_id", jstr(&d.product_id));
        push_member(&mut e, "id", jstr(&d.id));
        push_member(&mut e, "description", jstr(&d.description));
        assert(jv_entries(e@) =~= seq![
            ("bus"@, JsonV::Str(d.bus@)),
            ("device"@, JsonV::Str(d.device@)),
            ("vendor_id"@, JsonV::Str(d.vendor_id@)),
            ("product_id"@, JsonV::Str(d.product_id@)),
            ("id"@, JsonV::Str(d.id@)),
            ("description"@, JsonV::Str(d.description@)),
        ]);
        push_item(&mut items, Json::Object(e));
        assert(devices_view(devices@).take(i + 1).map_values(|d: UsbDeviceV| device_jv(d)) =~= devices_view(devices@).take(i as int).map_values(|d: UsbDeviceV| device_jv(d)).push(device_jv(devices@[i as int]@)));
        i = i + 1;
    }
    assert(devices_view(devices@).take(devices.len() as int) =~= devices_view(devices@));
    listing(timestamp, "devices", items)
}

pub open spec fn device_row(d: UsbDeviceV) -> Seq<Seq<char>> {
    seq![d.bus, d.device, d.id, d.description]
}

/// Build the human-readable table via the shared renderer.
pub fn to_table(devices: &[UsbDevice]) -> (r: String)
    ensures
        r@ == table(
            seq!["Bus"@, "Device"@, "ID"@, "Description"@],
            devices_view(devices@).map_values(|d: UsbDeviceV| device_row(d)),
            seq![Align::Left, Align::Left, Align::Left, Align::Left],
        ),
{
    let mut rows: Vec<Vec<String>> = Vec::new();
    let mut i: usize = 0;
    while i < devices.len()
        invariant
            i <= devices.len(),
            rows_view(rows@) == devices_view(devices@).take(i as int).map_values(|d: UsbDeviceV| device_row(d)),
        decreases devices.len() - i,
    {
        let d = &devices[i];
        let row = vec![d.bus.clone(), d.device.clone(), d.id.clone(), d.description.clone()];
        assert(cells_view(row) =~= device_row(d@));
        let ghost before = rows@;
        rows.push(row);
        assert(rows_view(rows@) =~= rows_view(before).push(device_row(d@)));
        assert(devices_view(devices@).take(i + 1).map_values(|d: UsbDeviceV| device_row(d)) =~= devices_view(devices@).take(i as int).map_values(|d: UsbDeviceV| device_row(d)).push(device_row(devices@[i as int]@)));
        i = i + 1;
    }
    assert(devices_view(devices@).take(devices.len() as int) =~= devices_view(devices@));
    let headers = ["Bus", "Device", "ID", "Description"];
    let align = [Align::Left, Align::Left, Align::Left, Align::Left];
    assert(headers_view(headers@) =~= seq!["Bus"@, "Device"@, "ID"@, "Description"@]);
    assert(align@ =~= seq![Align::Left, Align::Left, Align::Left, Align::Left]);
    render(&headers, &rows, &align)
}

} // verus!
