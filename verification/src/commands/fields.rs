//! `Key: Value` fields shared by `get-bios` and `get-processor`.
use vstd::prelude::*;
use crate::commands::common::{normalize_key, normalized_key};
use crate::json::{jstr, jv, jv_entries, push_member, Json, JsonV, lemma_jv_entries_push};
use crate::table::{cells_view, headers_view, render, rows_view, table, Align};
use crate::text::{split_once, split_once_exec, to_string, trim, trim_exec};

verus! {

/// One `Key: Value` field, in source order.
pub struct Field {
    pub key: String,
    pub value: String,
}

pub struct FieldV {
    pub key: Seq<char>,
    pub value: Seq<char>,
}

impl View for Field {
    type V = FieldV;

    open spec fn view(&self) -> FieldV {
        FieldV { key: self.key@, value: self.value@ }
    }
}

pub open spec fn fields_view(v: Seq<Field>) -> Seq<FieldV> {
    v.map_values(|f: Field| f@)
}

/// The field of a `Key: Value` text (split at the first colon): the
/// normalised trimmed key with the trimmed value; none when there is no
/// colon or the value is empty (sub-headers such as `Characteristics:`).
pub open spec fn field_of(text: Seq<char>) -> Option<FieldV> {
    match split_once(text, ':') {
        Some((k, v)) => if trim(v).len() == 0 {
            None
        } else {
            Some(FieldV { key: normalized_key(trim(k)), value: trim(v) })
        },
        None => None,
    }
}

pub fn parse_field(text: &Vec<char>) -> (r: Option<Field>)
    ensures
        match field_of(text@) {
            Some(f) => r is Some && r->0@ == f,
            None => r is None,
        },
{
    match split_once_exec(text, ':') {
        Some((k, v)) => {
            let value = trim_exec(&v);
            if value.len() == 0 {
                None
            } else {
                let key = trim_exec(&k);
                Some(Field { key: normalize_key(&key), value: to_string(&value) })
            }
        },
        None => None,
    }
}

/// The document: `{ timestamp, <key>: <value>, ... }`.
pub open spec fn fields_jv(timestamp: Seq<char>, fs: Seq<FieldV>) -> JsonV {
    JsonV::Object(
        seq![("timestamp"@, JsonV::Str(timestamp))] + fs.map_values(
            |f: FieldV| (f.key, JsonV::Str(f.value)),
        ),
    )
}

/// Build the structured JSON value: `{ timestamp, <field>: <value>, ... }`.
pub fn to_json(fields: &[Field], timestamp: &String) -> (r: Json)
    ensures
        jv(r) == fields_jv(timestamp@, fields_view(fields@)),
{
    let mut e: Vec<(String, Json)> = Vec::new();
    push_member(&mut e, "timestamp", jstr(timestamp));
    assert(jv_entries(Seq::<(String, Json)>::empty()) =~= Seq::empty());
    let mut i: usize = 0;
    while i < fields.len()
        invariant
            i <= fields.len(),
            jv_entries(e@) == seq![("timestamp"@, JsonV::Str(timestamp@))] + fields_view(
                fields@,
            ).take(i as int).map_values(|f: FieldV| (f.key, JsonV::Str(f.value))),
        decreases fields.len() - i,
    {
        let f = &fields[i];
        let m = (f.key.clone(), jstr(&f.value));
        proof {
            lemma_jv_entries_push(e@, m);
        }
        e.push(m);
        assert(fields_view(fields@).take(i + 1).map_values(|f: FieldV| (f.key, JsonV::Str(f.value)))
            =~= fields_view(fields@).take(i as int).map_values(
            |f: FieldV| (f.key, JsonV::Str(f.value)),
        ).push((f.key@, JsonV::Str(f.value@))));
        i = i + 1;
    }
    assert(fields_view(fields@).take(fields.len() as int) =~= fields_view(fields@));
    Json::Object(e)
}

pub open spec fn field_row(f: FieldV) -> Seq<Seq<char>> {
    seq![f.key, f.value]
}

/// Build the human-readable table (Field / Value).
pub fn to_table(fields: &[Field]) -> (r: String)
    ensures
        r@ == table(
            seq!["Field"@, "Value"@],
            fields_view(fields@).map_values(|f: FieldV| field_row(f)),
            seq![Align::Left, Align::Left],
        ),
{
    let mut rows: Vec<Vec<String>> = Vec::new();
    let mut i: usize = 0;
    while i < fields.len()
        invariant
            i <= fields.len(),
            rows_view(rows@) == fields_view(fields@).take(i as int).map_values(|f: FieldV| field_row(f)),
        decreases fields.len() - i,
    {
        let f = &fields[i];
        let row = vec![f.key.clone(), f.value.clone()];
        assert(cells_view(row) =~= field_row(f@));
        let ghost before = rows@;
        rows.push(row);
        assert(rows_view(rows@) =~= rows_view(before).push(field_row(f@)));
        assert(fields_view(fields@).take(i + 1).map_values(|f: FieldV| field_row(f)) =~= fields_view(fields@).take(i as int).map_values(|f: FieldV| field_row(f)).push(field_row(fields@[i as int]@)));
        i = i + 1;
    }
    assert(fields_view(fields@).take(fields.len() as int) =~= fields_view(fields@));
    let headers = ["Field", "Value"];
    let align = [Align::Left, Align::Left];
    assert(headers_view(headers@) =~= seq!["Field"@, "Value"@]);
    assert(align@ =~= seq![Align::Left, Align::Left]);
    render(&headers, &rows, &align)
}

} // verus!
