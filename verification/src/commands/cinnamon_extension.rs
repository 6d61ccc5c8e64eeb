//! `get-cinnamon-extension`: enabled Cinnamon extensions, from
//! `gsettings get org.cinnamon enabled-extensions`, whose value is a GVariant
//! string-list literal (often `@as []` when none are enabled).
use vstd::prelude::*;
use crate::commands::common::{parse_quoted_entries, quoted_entries};
use crate::json::{jstr, jv, jv_entries, jv_items, listing, listing_jv, push_item, push_member, Json, JsonV};
use crate::table::{cells_view, headers_view, render, rows_view, table, Align};
use crate::text::{chars_of, trim, trim_exec};

verus! {

pub open spec fn strings_view(v: Seq<String>) -> Seq<Seq<char>> {
    v.map_values(|s: String| s@)
}

/// The extension UUIDs of the `enabled-extensions` value (surrounding
/// whitespace ignored), in order; empty when none are enabled.
pub fn parse_extensions(out: &str) -> (r: Vec<String>)
    ensures
        strings_view(r@) == quoted_entries(trim(out@)),
{
    parse_quoted_entries(&trim_exec(&chars_of(out)))
}

pub open spec fn extension_jv(uuid: Seq<char>) -> JsonV {
    JsonV::Object(seq![("uuid"@, JsonV::Str(uuid))])
}

/// Build the structured JSON value: `{ timestamp, extensions: [...] }`.
pub fn to_json(extensions: &[String], timestamp: &String) -> (r: Json)
    ensures
        jv(r) == listing_jv(timestamp@, "extensions"@, strings_view(extensions@).map_values(|u: Seq<char>| extension_jv(u))),
{
    let mut items: Vec<Json> = Vec::new();
    let mut i: usize = 0;
    while i < extensions.len()
        invariant
            i <= extensions.len(),
            jv_items(items@) == strings_view(extensions@).take(i as int).map_values(|u: Seq<char>| extension_jv(u)),
        decreases extensions.len() - i,
    {
        let mut e: Vec<(String, Json)> = Vec::new();
        push_member(&mut e, "uuid", jstr(&extensions[i]));
        assert(jv_entries(e@) =~= seq![("uuid"@, JsonV::Str(extensions@[i as int]@))]);
        push_item(&mut items, Json::Object(e));
        assert(strings_view(extensions@).take(i + 1).map_values(|u: Seq<char>| extension_jv(u)) =~= strings_view(extensions@).take(i as int).map_values(|u: Seq<char>| extension_jv(u)).push(extension_jv(extensions@[i as int]@)));
        i = i + 1;
    }
    assert(strings_view(extensions@).take(extensions.len() as int) =~= strings_view(extensions@));
    listing(timestamp, "extensions", items)
}

/// Build the human-readable table.
pub fn to_table(extensions: &[String]) -> (r: String)
    ensures
        r@ == table(
            seq!["UUID"@],
            strings_view(extensions@).map_values(|u: Seq<char>| seq![u]),
            seq![Align::Left],
        ),
{
    let mut rows: Vec<Vec<String>> = Vec::new();
    let mut i: usize = 0;
    while i < extensions.len()
        invariant
            i <= extensions.len(),
            rows_view(rows@) == strings_view(extensions@).take(i as int).map_values(|u: Seq<char>| seq![u]),
        decreases extensions.len() - i,
    {
        let row = vec![extensions[i].clone()];
        assert(cells_view(row) =~= seq![extensions@[i as int]@]);
        let ghost before = rows@;
        rows.push(row);
        assert(rows_view(rows@) =~= rows_view(before).push(seq![extensions@[i as int]@]));
        assert(strings_view(extensions@).take(i + 1).map_values(|u: Seq<char>| seq![u]) =~= strings_view(extensions@).take(i as int).map_values(|u: Seq<char>| seq![u]).push(seq![extensions@[i as int]@]));
        i = i + 1;
    }
    assert(strings_view(extensions@).take(extensions.len() as int) =~= strings_view(extensions@));
    let headers = ["UUID"];
    let align = [Align::Left];
    assert(headers_view(headers@) =~= seq!["UUID"@]);
    assert(align@ =~= seq![Align::Left]);
    render(&headers, &rows, &align)
}

} // verus!
