//! `get-disk`: block devices — name, type, size in bytes, model, serial,
//! fstype, mountpoint — from `lsblk -b -P -o NAME,TYPE,SIZE,MODEL,SERIAL,FSTYPE,MOUNTPOINT`,
//! whose lines are quoted `KEY="value"` pairs.
use vstd::prelude::*;
use crate::bytes::{human, human_text};
use crate::json::{jstr, jstr_lit, jv, jv_entries, jv_items, push_item, push_member, Json, JsonV};
use crate::parse::{key_value_pairs, kv_pairs, pairs_view};
use crate::table::{cells_view, headers_view, render, rows_view, table, Align};
use crate::text::{
    chars_of, chars_of_string, eq_str, lemma_filter_map_step, lines, lines_exec, parse_u64_or_zero,
    parse_u64_or_zero_exec, to_string, trim, trim_exec, views,
};

verus! {

pub struct Disk {
    pub name: String,
    pub dtype: String,
    pub size: u64,
    pub model: String,
    pub serial: String,
    pub fstype: String,
    pub mountpoint: String,
}

pub struct DiskV {
    pub name: Seq<char>,
    pub dtype: Seq<char>,
    pub size: u64,
    pub model: Seq<char>,
    pub serial: Seq<char>,
    pub fstype: Seq<char>,
    pub mountpoint: Seq<char>,
}

impl View for Disk {
    type V = DiskV;

    open spec fn view(&self) -> DiskV {
        DiskV {
            name: self.name@,
            dtype: self.dtype@,
            size: self.size,
            model: self.model@,
            serial: self.serial@,
            fstype: self.fstype@,
            mountpoint: self.mountpoint@,
        }
    }
}

pub open spec fn disks_view(v: Seq<Disk>) -> Seq<DiskV> {
    v.map_values(|d: Disk| d@)
}

/// The value of the first pair with key `k`, or the empty text.
pub open spec fn first_value(pairs: Seq<(Seq<char>, Seq<char>)>, k: Seq<char>) -> Seq<char>
    decreases pairs.len(),
{
    if pairs.len() == 0 {
        seq![]
    } else if pairs[0].0 == k {
        pairs[0].1
    } else {
        first_value(pairs.drop_first(), k)
    }
}

/// One `lsblk -P` line; blank lines hold no device, missing keys read as
/// empty text and an unparsable size as 0.
pub open spec fn disk_line(line: Seq<char>) -> Option<DiskV> {
    if trim(line).len() == 0 {
        None
    } else {
        let p = kv_pairs(line);
        Some(
            DiskV {
                name: first_value(p, "NAME"@),
                dtype: first_value(p, "TYPE"@),
                size: parse_u64_or_zero(first_value(p, "SIZE"@)),
                model: first_value(p, "MODEL"@),
                serial: first_value(p, "SERIAL"@),
                fstype: first_value(p, "FSTYPE"@),
                mountpoint: first_value(p, "MOUNTPOINT"@),
            },
        )
    }
}

pub open spec fn disk_parser() -> spec_fn(Seq<char>) -> Option<DiskV> {
    |l: Seq<char>| disk_line(l)
}

/// The devices listed by `lsblk -P`, in order.
pub open spec fn disks_of(text: Seq<char>) -> Seq<DiskV> {
    lines(text).filter_map(disk_parser())
}

/// The value for key `k` among parsed pairs (first match), or empty.
pub fn get_value(pairs: &Vec<(String, String)>, k: &str) -> (r: Vec<char>)
    ensures
        r@ == first_value(pairs_view(pairs@), k@),
{
    let ghost pv = pairs_view(pairs@);
    let mut i: usize = 0;
    assert(pv.skip(0) =~= pv);
    while i < pairs.len()
        invariant
            i <= pairs.len(),
            pv == pairs_view(pairs@),
            first_value(pv.skip(i as int), k@) == first_value(pv, k@),
        decreases pairs.len() - i,
    {
        let key = chars_of_string(&pairs[i].0);
        assert(pv.skip(i as int)[0] == pv[i as int]);
        assert(pv.skip(i as int).drop_first() =~= pv.skip(i + 1));
        if eq_str(&key, k) {
            return chars_of_string(&pairs[i].1);
        }
        i = i + 1;
    }
    assert(pv.skip(i as int).len() == 0);
    Vec::new()
}

fn parse_disk_line(line: &Vec<char>) -> (r: Option<Disk>)
    ensures
        match disk_line(line@) {
            Some(d) => r is Some && r->0@ == d,
            None => r is None,
        },
{
    let t = trim_exec(line);
    if t.len() == 0 {
        return None;
    }
    let s = to_string(line);
    let pairs = key_value_pairs(s.as_str());
    let size = get_value(&pairs, "SIZE");
    Some(
        Disk {
            name: to_string(&get_value(&pairs, "NAME")),
            dtype: to_string(&get_value(&pairs, "TYPE")),
            size: parse_u64_or_zero_exec(&size),
            model: to_string(&get_value(&pairs, "MODEL")),
            serial: to_string(&get_value(&pairs, "SERIAL")),
            fstype: to_string(&get_value(&pairs, "FSTYPE")),
            mountpoint: to_string(&get_value(&pairs, "MOUNTPOINT")),
        },
    )
}

/// Parse `lsblk -b -P` output into disks.
pub fn parse_disks(text: &str) -> (r: Vec<Disk>)
    ensures
        disks_view(r@) == disks_of(text@),
{
    let t = chars_of(text);
    let ls = lines_exec(&t);
    let ghost lv = views(ls@);
    let mut out: Vec<Disk> = Vec::new();
    let mut i: usize = 0;
    while i < ls.len()
        invariant
            i <= ls.len(),
            lv == views(ls@),
            lv == lines(text@),
            disks_view(out@) == lv.take(i as int).filter_map(disk_parser()),
        decreases ls.len() - i,
    {
        proof {
            lemma_filter_map_step(lv, disk_parser(), i as int);
        }
        assert(lv[i as int] == ls@[i as int]@);
        let ghost before = out@;
        match parse_disk_line(&ls[i]) {
            Some(d) => {
                out.push(d);
                assert(disks_view(out@) =~= disks_view(before).push(d@));
            },
            None => {},
        }
        i = i + 1;
    }
    assert(lv.take(ls.len() as int) =~= lv);
    out
}

pub open spec fn disk_jv(d: DiskV) -> JsonV {
    JsonV::Object(
        seq![
            ("name"@, JsonV::Str(d.name)),
            ("type"@, JsonV::Str(d.dtype)),
            ("size"@, JsonV::U64(d.size)),
            ("model"@, JsonV::Str(d.model)),
            ("serial"@, JsonV::Str(d.serial)),
            ("fstype"@, JsonV::Str(d.fstype)),
            ("mountpoint"@, JsonV::Str(d.mountpoint)),
        ],
    )
}

/// The document: `{ timestamp, unit: "bytes", disks: [...] }`.
pub open spec fn disks_jv(timestamp: Seq<char>, ds: Seq<DiskV>) -> JsonV {
    JsonV::Object(
        seq![
            ("timestamp"@, JsonV::Str(timestamp)),
            ("unit"@, JsonV::Str("bytes"@)),
            ("disks"@, JsonV::Array(ds.map_values(|d: DiskV| disk_jv(d)))),
        ],
    )
}

/// Build the structured JSON value: `{ timestamp, unit, disks: [...] }`.
pub fn to_json(disks: &[Disk], timestamp: &String) -> (r: Json)
    ensures
        jv(r) == disks_jv(timestamp@, disks_view(disks@)),
{
    let mut items: Vec<Json> = Vec::new();
    let mut i: usize = 0;
    while i < disks.len()
        invariant
            i <= disks.len(),
            jv_items(items@) == disks_view(disks@).take(i as int).map_values(|d: DiskV| disk_jv(d)),
        decreases disks.len() - i,
    {
        let d = &disks[i];
        let mut e: Vec<(String, Json)> = Vec::new();
        push_member(&mut e, "name", jstr(&d.name));
        push_member(&mut e, "type", jstr(&d.dtype));
        push_member(&mut e, "size", Json::U64(d.size));
        push_member(&mut e, "model", jstr(&d.model));
        push_member(&mut e, "serial", jstr(&d.serial));
        push_member(&mut e, "fstype", jstr(&d.fstype));
        push_member(&mut e, "mountpoint", jstr(&d.mountpoint));
        assert(jv_entries(e@) =~= seq![
            ("name"@, JsonV::Str(d.name@)),
            ("type"@, JsonV::Str(d.dtype@)),
            ("size"@, JsonV::U64(d.size)),
            ("model"@, JsonV::Str(d.model@)),
            ("serial"@, JsonV::Str(d.serial@)),
            ("fstype"@, JsonV::Str(d.fstype@)),
            ("mountpoint"@, JsonV::Str(d.mountpoint@)),
        ]);
        push_item(&mut items, Json::Object(e));
        assert(disks_view(disks@).take(i + 1).map_values(|d: DiskV| disk_jv(d)) =~= disks_view(disks@).take(i as int).map_values(|d: DiskV| disk_jv(d)).push(disk_jv(disks@[i as int]@)));
        i = i + 1;
    }
    assert(disks_view(disks@).take(disks.len() as int) =~= disks_view(disks@));
    let mut e: Vec<(String, Json)> = Vec::new();
    push_member(&mut e, "timestamp", jstr(timestamp));
    push_member(&mut e, "unit", jstr_lit("bytes"));
    push_member(&mut e, "disks", Json::Array(items));
    assert(jv_entries(e@) =~= seq![
        ("timestamp"@, JsonV::Str(timestamp@)),
        ("unit"@, JsonV::Str("bytes"@)),
        ("disks"@, JsonV::Array(disks_view(disks@).map_values(|d: DiskV| disk_jv(d)))),
    ]);
    Json::Object(e)
}

pub open spec fn disk_row(d: DiskV) -> Seq<Seq<char>> {
    seq![d.name, d.dtype, human_text(d.size as nat), d.model, d.serial, d.fstype, d.mountpoint]
}

/// Build the human-readable table via the shared renderer.
pub fn to_table(disks: &[Disk]) -> (r: String)
    ensures
        r@ == table(
            seq!["Name"@, "Type"@, "Size"@, "Model"@, "Serial"@, "FSType"@, "Mountpoint"@],
            disks_view(disks@).map_values(|d: DiskV| disk_row(d)),
            seq![Align::Left, Align::Left, Align::Right, Align::Left, Align::Left, Align::Left, Align::Left],
        ),
{
    let mut rows: Vec<Vec<String>> = Vec::new();
    let mut i: usize = 0;
    while i < disks.len()
        invariant
            i <= disks.len(),
            rows_view(rows@) == disks_view(disks@).take(i as int).map_values(|d: DiskV| disk_row(d)),
        decreases disks.len() - i,
    {
        let d = &disks[i];
        let row = vec![
            d.name.clone(),
            d.dtype.clone(),
            human(d.size),
            d.model.clone(),
            d.serial.clone(),
            d.fstype.clone(),
            d.mountpoint.clone(),
        ];
        assert(cells_view(row) =~= disk_row(d@));
        let ghost before = rows@;
        rows.push(row);
        assert(rows_view(rows@) =~= rows_view(before).push(disk_row(d@)));
        assert(disks_view(disks@).take(i + 1).map_values(|d: DiskV| disk_row(d)) =~= disks_view(disks@).take(i as int).map_values(|d: DiskV| disk_row(d)).push(disk_row(disks@[i as int]@)));
        i = i + 1;
    }
    assert(disks_view(disks@).take(disks.len() as int) =~= disks_view(disks@));
    let headers = ["Name", "Type", "Size", "Model", "Serial", "FSType", "Mountpoint"];
    let align = [Align::Left, Align::Left, Align::Right, Align::Left, Align::Left, Align::Left, Align::Left];
    assert(headers_view(headers@) =~= seq!["Name"@, "Type"@, "Size"@, "Model"@, "Serial"@, "FSType"@, "Mountpoint"@]);
    assert(align@ =~= seq![Align::Left, Align::Left, Align::Right, Align::Left, Align::Left, Align::Left, Align::Left]);
    render(&headers, &rows, &align)
}

} // verus!
