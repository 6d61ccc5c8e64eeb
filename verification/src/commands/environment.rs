//! `get-environment`: the process environment variables (name / value),
//! sorted by name for stable output.
use vstd::prelude::*;
use crate::commands::common::{stable_order, stable_sort_order};
use crate::json::{jstr, jv, jv_entries, jv_items, listing, listing_jv, push_item, push_member, Json, JsonV};
use crate::table::{cells_view, headers_view, render, rows_view, table, Align};
use crate::text::{chars_of_string, views};

verus! {

pub struct EnvVar {
    pub name: String,
    pub value: String,
}

impl View for EnvVar {
    type V = (Seq<char>, Seq<char>);

    open spec fn view(&self) -> (Seq<char>, Seq<char>) {
        (self.name@, self.value@)
    }
}

pub open spec fn vars_view(v: Seq<EnvVar>) -> Seq<(Seq<char>, Seq<char>)> {
    v.map_values(|e: EnvVar| e@)
}

pub open spec fn var_names(v: Seq<(Seq<char>, Seq<char>)>) -> Seq<Seq<char>> {
    v.map_values(|p: (Seq<char>, Seq<char>)| p.0)
}

/// The variables sorted by name; variables with equal names keep their
/// relative order (a stable sort).
pub fn sort_by_name(vars: &Vec<EnvVar>) -> (r: Vec<EnvVar>)
    ensures
        exists|order: Seq<int>|
            #![trigger stable_order(var_names(vars_view(vars@)), order)]
            stable_order(var_names(vars_view(vars@)), order) && vars_view(r@) == order.map_values(
                |k: int| vars_view(vars@)[k],
            ),
{
    let ghost vv = vars_view(vars@);
    let mut keys: Vec<Vec<char>> = Vec::new();
    let mut i: usize = 0;
    while i < vars.len()
        invariant
            i <= vars.len(),
            vv == vars_view(vars@),
            views(keys@) == var_names(vv).take(i as int),
        decreases vars.len() - i,
    {
        let ghost before = keys@;
        keys.push(chars_of_string(&vars[i].name));
        assert(views(keys@) =~= views(before).push(vv[i as int].0));
        assert(var_names(vv).take(i + 1) =~= var_names(vv).take(i as int).push(vv[i as int].0));
        i = i + 1;
    }
    assert(var_names(vv).take(vars.len() as int) =~= var_names(vv));
    let order = stable_sort_order(&keys);
    let ghost ord = order@.map_values(|k: usize| k as int);
    let mut out: Vec<EnvVar> = Vec::new();
    let mut j: usize = 0;
    while j < order.len()
        invariant
            j <= order.len(),
            vv == vars_view(vars@),
            ord == order@.map_values(|k: usize| k as int),
            stable_order(var_names(vv), ord),
            vars_view(out@) == ord.take(j as int).map_values(|k: int| vv[k]),
        decreases order.len() - j,
    {
        let k = order[j];
        assert(ord[j as int] == k as int);
        let e = EnvVar { name: vars[k].name.clone(), value: vars[k].value.clone() };
        let ghost before = out@;
        out.push(e);
        assert(vars_view(out@) =~= vars_view(before).push(vv[k as int]));
        assert(ord.take(j + 1).map_values(|k: int| vv[k]) =~= ord.take(j as int).map_values(|k: int| vv[k]).push(vv[k as int]));
        j = j + 1;
    }
    assert(ord.take(order.len() as int) =~= ord);
    out
}

pub open spec fn var_jv(v: (Seq<char>, Seq<char>)) -> JsonV {
    JsonV::Object(seq![("name"@, JsonV::Str(v.0)), ("value"@, JsonV::Str(v.1))])
}

/// Build the structured JSON value: `{ timestamp, variables: [...] }`.
pub fn to_json(vars: &[EnvVar], timestamp: &String) -> (r: Json)
    ensures
        jv(r) == listing_jv(timestamp@, "variables"@, vars_view(vars@).map_values(|v: (Seq<char>, Seq<char>)| var_jv(v))),
{
    let mut items: Vec<Json> = Vec::new();
    let mut i: usize = 0;
    while i < vars.len()
        invariant
            i <= vars.len(),
            jv_items(items@) == vars_view(vars@).take(i as int).map_values(|v: (Seq<char>, Seq<char>)| var_jv(v)),
        decreases vars.len() - i,
    {
        let mut e: Vec<(String, Json)> = Vec::new();
        push_member(&mut e, "name", jstr(&vars[i].name));
        push_member(&mut e, "value", jstr(&vars[i].value));
        assert(jv_entries(e@) =~= seq![("name"@, JsonV::Str(vars@[i as int].name@)), ("value"@, JsonV::Str(vars@[i as int].value@))]);
        push_item(&mut items, Json::Object(e));
        assert(vars_view(vars@).take(i + 1).map_values(|v: (Seq<char>, Seq<char>)| var_jv(v)) =~= vars_view(vars@).take(i as int).map_values(|v: (Seq<char>, Seq<char>)| var_jv(v)).push(var_jv(vars@[i as int]@)));
        i = i + 1;
    }
    assert(vars_view(vars@).take(vars.len() as int) =~= vars_view(vars@));
    listing(timestamp, "variables", items)
}

pub open spec fn var_row(v: (Seq<char>, Seq<char>)) -> Seq<Seq<char>> {
    seq![v.0, v.1]
}

/// Build the human-readable table via the shared renderer.
pub fn to_table(vars: &[EnvVar]) -> (r: String)
    ensures
        r@ == table(
            seq!["Name"@, "Value"@],
            vars_view(vars@).map_values(|v: (Seq<char>, Seq<char>)| var_row(v)),
            seq![Align::Left, Align::Left],
        ),
{
    let mut rows: Vec<Vec<String>> = Vec::new();
    let mut i: usize = 0;
    while i < vars.len()
        invariant
            i <= vars.len(),
            rows_view(rows@) == vars_view(vars@).take(i as int).map_values(|v: (Seq<char>, Seq<char>)| var_row(v)),
        decreases vars.len() - i,
    {
        let row = vec![vars[i].name.clone(), vars[i].value.clone()];
        assert(cells_view(row) =~= var_row(vars@[i as int]@));
        let ghost before = rows@;
        rows.push(row);
        assert(rows_view(rows@) =~= rows_view(before).push(var_row(vars@[i as int]@)));
        assert(vars_view(vars@).take(i + 1).map_values(|v: (Seq<char>, Seq<char>)| var_row(v)) =~= vars_view(vars@).take(i as int).map_values(|v: (Seq<char>, Seq<char>)| var_row(v)).push(var_row(vars@[i as int]@)));
        i = i + 1;
    }
    assert(vars_view(vars@).take(vars.len() as int) =~= vars_view(vars@));
    let headers = ["Name", "Value"];
    let align = [Align::Left, Align::Left];
    assert(headers_view(headers@) =~= seq!["Name"@, "Value"@]);
    assert(align@ =~= seq![Align::Left, Align::Left]);
    render(&headers, &rows, &align)
}

} // verus!
