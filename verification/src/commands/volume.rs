//! `get-volume`: mounted filesystems with sizes in bytes, from
//! `df -B1 --output=source,fstype,size,used,avail,pcent,target`.
use vstd::prelude::*;
use crate::bytes::{human, human_text};
use crate::commands::common::{join_from, trim_end_char, trim_end_char_exec};
use crate::json::{jstr, jstr_lit, jv, jv_entries, jv_items, push_item, push_member, Json, JsonV};
use crate::table::{cells_view, headers_view, render, rows_view, table, Align};
use crate::text::{
    chars_of, dec, join, lemma_filter_map_step, lines, lines_exec, parse_u64_or_zero,
    parse_u64_or_zero_exec, to_string, u64_to_string, views, words, words_exec,
};

verus! {

pub struct Volume {
    pub source: String,
    pub fstype: String,
    pub size: u64,
    pub used: u64,
    pub available: u64,
    pub use_percent: u64,
    pub mountpoint: String,
}

pub struct VolumeV {
    pub source: Seq<char>,
    pub fstype: Seq<char>,
    pub size: u64,
    pub used: u64,
    pub available: u64,
    pub use_percent: u64,
    pub mountpoint: Seq<char>,
}

impl View for Volume {
    type V = VolumeV;

    open spec fn view(&self) -> VolumeV {
        VolumeV {
            source: self.source@,
            fstype: self.fstype@,
            size: self.size,
            used: self.used,
            available: self.available,
            use_percent: self.use_percent,
            mountpoint: self.mountpoint@,
        }
    }
}

pub open spec fn volumes_view(v: Seq<Volume>) -> Seq<VolumeV> {
    v.map_values(|x: Volume| x@)
}

/// One `df` data line: six single-token columns, then the mountpoint (the
/// remaining tokens re-joined with single spaces). Lines with fewer than
/// seven tokens hold no volume; unparsable numbers read as 0.
pub open spec fn volume_line(line: Seq<char>) -> Option<VolumeV> {
    let f = words(line);
    if f.len() < 7 {
        None
    } else {
        Some(
            VolumeV {
                source: f[0],
                fstype: f[1],
                size: parse_u64_or_zero(f[2]),
                used: parse_u64_or_zero(f[3]),
                available: parse_u64_or_zero(f[4]),
                use_percent: parse_u64_or_zero(trim_end_char(f[5], '%')),
                mountpoint: join(f.skip(6), seq![' ']),
            },
        )
    }
}

pub open spec fn volume_parser() -> spec_fn(Seq<char>) -> Option<VolumeV> {
    |l: Seq<char>| volume_line(l)
}

/// The volumes in `df` output: every line after the header line, in order.
pub open spec fn volumes_of(text: Seq<char>) -> Seq<VolumeV> {
    let ls = lines(text);
    if ls.len() == 0 {
        seq![]
    } else {
        ls.drop_first().filter_map(volume_parser())
    }
}

fn parse_volume_line(line: &Vec<char>) -> (r: Option<Volume>)
    ensures
        match volume_line(line@) {
            Some(v) => r is Some && r->0@ == v,
            None => r is None,
        },
{
    let f = words_exec(line);
    if f.len() < 7 {
        return None;
    }
    assert(views(f@)[0] == f@[0]@);
    assert(views(f@)[1] == f@[1]@);
    assert(views(f@)[2] == f@[2]@);
    assert(views(f@)[3] == f@[3]@);
    assert(views(f@)[4] == f@[4]@);
    assert(views(f@)[5] == f@[5]@);
    let pct = trim_end_char_exec(&f[5], '%');
    Some(
        Volume {
            source: to_string(&f[0]),
            fstype: to_string(&f[1]),
            size: parse_u64_or_zero_exec(&f[2]),
            used: parse_u64_or_zero_exec(&f[3]),
            available: parse_u64_or_zero_exec(&f[4]),
            use_percent: parse_u64_or_zero_exec(&pct),
            mountpoint: join_from(&f, 6),
        },
    )
}

/// Parse `df` output (its first line is the column header).
pub fn parse_volumes(text: &str) -> (r: Vec<Volume>)
    ensures
        volumes_view(r@) == volumes_of(text@),
{
    let t = chars_of(text);
    let ls = lines_exec(&t);
    let mut out: Vec<Volume> = Vec::new();
    if ls.len() == 0 {
        assert(volumes_view(out@) =~= Seq::<VolumeV>::empty());
        return out;
    }
    let ghost lv = views(ls@).drop_first();
    let mut i: usize = 1;
    while i < ls.len()
        invariant
            1 <= i <= ls.len(),
            lv == views(ls@).drop_first(),
            views(ls@) == lines(text@),
            volumes_view(out@) == lv.take(i - 1).filter_map(volume_parser()),
        decreases ls.len() - i,
    {
        proof {
            lemma_filter_map_step(lv, volume_parser(), i - 1);
        }
        assert(lv[i - 1] == ls@[i as int]@);
        let ghost before = out@;
        match parse_volume_line(&ls[i]) {
            Some(v) => {
                out.push(v);
                assert(volumes_view(out@) =~= volumes_view(before).push(v@));
            },
            None => {},
        }
        i = i + 1;
    }
    assert(lv.take(ls.len() - 1) =~= lv);
    out
}

pub open spec fn volume_jv(v: VolumeV) -> JsonV {
    JsonV::Object(
        seq![
            ("source"@, JsonV::Str(v.source)),
            ("fstype"@, JsonV::Str(v.fstype)),
            ("size"@, JsonV::U64(v.size)),
            ("used"@, JsonV::U64(v.used)),
            ("available"@, JsonV::U64(v.available)),
            ("use_percent"@, JsonV::U64(v.use_percent)),
            ("mountpoint"@, JsonV::Str(v.mountpoint)),
        ],
    )
}

/// The document: `{ timestamp, unit: "bytes", volumes: [...] }`.
pub open spec fn volumes_jv(timestamp: Seq<char>, vs: Seq<VolumeV>) -> JsonV {
    JsonV::Object(
        seq![
            ("timestamp"@, JsonV::Str(timestamp)),
            ("unit"@, JsonV::Str("bytes"@)),
            ("volumes"@, JsonV::Array(vs.map_values(|v: VolumeV| volume_jv(v)))),
        ],
    )
}

/// Build the structured JSON value: `{ timestamp, unit, volumes: [...] }`.
pub fn to_json(volumes: &[Volume], timestamp: &String) -> (r: Json)
    ensures
        jv(r) == volumes_jv(timestamp@, volumes_view(volumes@)),
{
    let mut items: Vec<Json> = Vec::new();
    let mut i: usize = 0;
    while i < volumes.len()
        invariant
            i <= volumes.len(),
            jv_items(items@) == volumes_view(volumes@).take(i as int).map_values(|v: VolumeV| volume_jv(v)),
        decreases volumes.len() - i,
    {
        let v = &volumes[i];
        let mut e: Vec<(String, Json)> = Vec::new();
        push_member(&mut e, "source", jstr(&v.source));
        push_member(&mut e, "fstype", jstr(&v.fstype));
        push_member(&mut e, "size", Json::U64(v.size));
        push_member(&mut e, "used", Json::U64(v.used));
        push_member(&mut e, "available", Json::U64(v.available));
        push_member(&mut e, "use_percent", Json::U64(v.use_percent));
        push_member(&mut e, "mountpoint", jstr(&v.mountpoint));
        assert(jv_entries(e@) =~= seq![
            ("source"@, JsonV::Str(v.source@)),
            ("fstype"@, JsonV::Str(v.fstype@)),
            ("size"@, JsonV::U64(v.size)),
            ("used"@, JsonV::U64(v.used)),
            ("available"@, JsonV::U64(v.available)),
            ("use_percent"@, JsonV::U64(v.use_percent)),
            ("mountpoint"@, JsonV::Str(v.mountpoint@)),
        ]);
        push_item(&mut items, Json::Object(e));
        assert(volumes_view(volumes@).take(i + 1).map_values(|v: VolumeV| volume_jv(v)) =~= volumes_view(volumes@).take(i as int).map_values(|v: VolumeV| volume_jv(v)).push(volume_jv(volumes@[i as int]@)));
        i = i + 1;
    }
    assert(volumes_view(volumes@).take(volumes.len() as int) =~= volumes_view(volumes@));
    let mut e: Vec<(String, Json)> = Vec::new();
    push_member(&mut e, "timestamp", jstr(timestamp));
    push_member(&mut e, "unit", jstr_lit("bytes"));
    push_member(&mut e, "volumes", Json::Array(items));
    assert(jv_entries(e@) =~= seq![
        ("timestamp"@, JsonV::Str(timestamp@)),
        ("unit"@, JsonV::Str("bytes"@)),
        ("volumes"@, JsonV::Array(volumes_view(volumes@).map_values(|v: VolumeV| volume_jv(v)))),
    ]);
    Json::Object(e)
}

pub open spec fn volume_row(v: VolumeV) -> Seq<Seq<char>> {
    seq![
        v.source,
        v.fstype,
        human_text(v.size as nat),
        human_text(v.used as nat),
        human_text(v.available as nat),
        dec(v.use_percent as nat).push('%'),
        v.mountpoint,
    ]
}

/// Build the human-readable table via the shared renderer.
pub fn to_table(volumes: &[Volume]) -> (r: String)
    ensures
        r@ == table(
            seq!["Source"@, "Type"@, "Size"@, "Used"@, "Avail"@, "Use%"@, "Mounted on"@],
            volumes_view(volumes@).map_values(|v: VolumeV| volume_row(v)),
            seq![Align::Left, Align::Left, Align::Right, Align::Right, Align::Right, Align::Right, Align::Left],
        ),
{
    let mut rows: Vec<Vec<String>> = Vec::new();
    let mut i: usize = 0;
    while i < volumes.len()
        invariant
            i <= volumes.len(),
            rows_view(rows@) == volumes_view(volumes@).take(i as int).map_values(|v: VolumeV| volume_row(v)),
        decreases volumes.len() - i,
    {
        let v = &volumes[i];
        let mut pct = crate::text::dec_exec(v.use_percent);
        pct.push('%');
        let row = vec![
            v.source.clone(),
            v.fstype.clone(),
            human(v.size),
            human(v.used),
            human(v.available),
            to_string(&pct),
            v.mountpoint.clone(),
        ];
        assert(cells_view(row) =~= volume_row(v@));
        let ghost before = rows@;
        rows.push(row);
        assert(rows_view(rows@) =~= rows_view(before).push(volume_row(v@)));
        assert(volumes_view(volumes@).take(i + 1).map_values(|v: VolumeV| volume_row(v)) =~= volumes_view(volumes@).take(i as int).map_values(|v: VolumeV| volume_row(v)).push(volume_row(volumes@[i as int]@)));
        i = i + 1;
    }
    assert(volumes_view(volumes@).take(volumes.len() as int) =~= volumes_view(volumes@));
    let headers = ["Source", "Type", "Size", "Used", "Avail", "Use%", "Mounted on"];
    let align = [Align::Left, Align::Left, Align::Right, Align::Right, Align::Right, Align::Right, Align::Left];
    assert(headers_view(headers@) =~= seq!["Source"@, "Type"@, "Size"@, "Used"@, "Avail"@, "Use%"@, "Mounted on"@]);
    assert(align@ =~= seq![Align::Left, Align::Left, Align::Right, Align::Right, Align::Right, Align::Right, Align::Left]);
    render(&headers, &rows, &align)
}

} // verus!
