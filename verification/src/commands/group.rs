//! `get-group`: local groups and their members, from `getent group`
//! (colon-separated: `name:x:gid:members`).
use vstd::prelude::*;
use crate::json::{jstr, jv, jv_entries, jv_items, listing, listing_jv, push_item, push_member, Json, JsonV};
use crate::table::{cells_view, headers_view, render, rows_view, table, Align};
use crate::text::{
    chars_of, join, join_exec, lemma_filter_map_step, lines, lines_exec, parse_u64_or_zero,
    parse_u64_or_zero_exec, split, split_exec, splitn, splitn_exec, to_string, trim, trim_exec, views,
};

verus! {

pub struct Group {
    pub name: String,
    pub gid: u64,
    pub members: Vec<String>,
}

pub struct GroupV {
    pub name: Seq<char>,
    pub gid: u64,
    pub members: Seq<Seq<char>>,
}

impl View for Group {
    type V = GroupV;

    open spec fn view(&self) -> GroupV {
        GroupV { name: self.name@, gid: self.gid, members: self.members@.map_values(|m: String| m@) }
    }
}

pub open spec fn groups_view(v: Seq<Group>) -> Seq<GroupV> {
    v.map_values(|g: Group| g@)
}

/// The members of a comma-separated list, trimmed, empty ones dropped.
pub open spec fn member_list(field: Seq<char>) -> Seq<Seq<char>> {
    split(field, ',').map_values(|m: Seq<char>| trim(m)).filter(|m: Seq<char>| m.len() > 0)
}

/// One `name:x:gid:members` record; lines with fewer than four fields hold
/// no group, and an unparsable gid reads as 0.
pub open spec fn group_line(line: Seq<char>) -> Option<GroupV> {
    let f = splitn(line, 4, ':');
    if f.len() < 4 {
        None
    } else {
        Some(GroupV { name: f[0], gid: parse_u64_or_zero(f[2]), members: member_list(f[3]) })
    }
}

pub open spec fn group_parser() -> spec_fn(Seq<char>) -> Option<GroupV> {
    |l: Seq<char>| group_line(l)
}

/// The groups listed by `getent group`, in order.
pub open spec fn groups_of(text: Seq<char>) -> Seq<GroupV> {
    lines(text).filter_map(group_parser())
}

fn parse_members(field: &Vec<char>) -> (r: Vec<String>)
    ensures
        r@.map_values(|m: String| m@) == member_list(field@),
{
    let parts = split_exec(field, ',');
    let ghost pv = views(parts@);
    let ghost tv = pv.map_values(|m: Seq<char>| trim(m));
    let ghost keep = |m: Seq<char>| m.len() > 0;
    let mut out: Vec<String> = Vec::new();
    let mut i: usize = 0;
    while i < parts.len()
        invariant
            i <= parts.len(),
            pv == views(parts@),
            tv == pv.map_values(|m: Seq<char>| trim(m)),
            keep == (|m: Seq<char>| m.len() > 0),
            out@.map_values(|m: String| m@) == tv.take(i as int).filter(keep),
        decreases parts.len() - i,
    {
        let t = trim_exec(&parts[i]);
        assert(t@ == tv[i as int]);
        proof {
            reveal(Seq::filter);
            assert(tv.take(i + 1).drop_last() =~= tv.take(i as int));
        }
        let ghost before = out@;
        if t.len() > 0 {
            out.push(to_string(&t));
            assert(out@.map_values(|m: String| m@) =~= before.map_values(|m: String| m@).push(t@));
        }
        i = i + 1;
    }
    assert(tv.take(parts.len() as int) =~= tv);
    out
}

fn parse_group_line(line: &Vec<char>) -> (r: Option<Group>)
    ensures
        match group_line(line@) {
            Some(g) => r is Some && r->0@ == g,
            None => r is None,
        },
{
    let f = splitn_exec(line, 4, ':');
    if f.len() < 4 {
        return None;
    }
    assert(views(f@)[0] == f@[0]@);
    assert(views(f@)[2] == f@[2]@);
    assert(views(f@)[3] == f@[3]@);
    Some(
        Group {
            name: to_string(&f[0]),
            gid: parse_u64_or_zero_exec(&f[2]),
            members: parse_members(&f[3]),
        },
    )
}

/// Parse `getent group` output.
pub fn parse_groups(text: &str) -> (r: Vec<Group>)
    ensures
        groups_view(r@) == groups_of(text@),
{
    let t = chars_of(text);
    let ls = lines_exec(&t);
    let ghost lv = views(ls@);
    let mut out: Vec<Group> = Vec::new();
    let mut i: usize = 0;
    while i < ls.len()
        invariant
            i <= ls.len(),
            lv == views(ls@),
            lv == lines(text@),
            groups_view(out@) == lv.take(i as int).filter_map(group_parser()),
        decreases ls.len() - i,
    {
        proof {
            lemma_filter_map_step(lv, group_parser(), i as int);
        }
        assert(lv[i as int] == ls@[i as int]@);
        let ghost before = out@;
        match parse_group_line(&ls[i]) {
            Some(g) => {
                out.push(g);
                assert(groups_view(out@) =~= groups_view(before).push(g@));
            },
            None => {},
        }
        i = i + 1;
    }
    assert(lv.take(ls.len() as int) =~= lv);
    out
}

pub open spec fn group_jv(g: GroupV) -> JsonV {
    JsonV::Object(
        seq![
            ("name"@, JsonV::Str(g.name)),
            ("gid"@, JsonV::U64(g.gid)),
            ("members"@, JsonV::Array(g.members.map_values(|m: Seq<char>| JsonV::Str(m)))),
        ],
    )
}

fn group_json(g: &Group) -> (r: Json)
    ensures
        jv(r) == group_jv(g@),
{
    let mut ms: Vec<Json> = Vec::new();
    let mut i: usize = 0;
    while i < g.members.len()
        invariant
            i <= g.members.len(),
            jv_items(ms@) == g@.members.take(i as int).map_values(|m: Seq<char>| JsonV::Str(m)),
        decreases g.members.len() - i,
    {
        push_item(&mut ms, jstr(&g.members[i]));
        assert(g@.members.take(i + 1).map_values(|m: Seq<char>| JsonV::Str(m)) =~= g@.members.take(
            i as int,
        ).map_values(|m: Seq<char>| JsonV::Str(m)).push(JsonV::Str(g.members@[i as int]@)));
        i = i + 1;
    }
    assert(g@.members.take(g.members.len() as int) =~= g@.members);
    let mut e: Vec<(String, Json)> = Vec::new();
    push_member(&mut e, "name", jstr(&g.name));
    push_member(&mut e, "gid", Json::U64(g.gid));
    push_member(&mut e, "members", Json::Array(ms));
    assert(jv_entries(e@) =~= seq![
        ("name"@, JsonV::Str(g.name@)),
        ("gid"@, JsonV::U64(g.gid)),
        ("members"@, JsonV::Array(g@.members.map_values(|m: Seq<char>| JsonV::Str(m)))),
    ]);
    Json::Object(e)
}

/// Build the structured JSON value: `{ timestamp, groups: [...] }`.
pub fn to_json(groups: &[Group], timestamp: &String) -> (r: Json)
    ensures
        jv(r) == listing_jv(timestamp@, "groups"@, groups_view(groups@).map_values(|g: GroupV| group_jv(g))),
{
    let mut items: Vec<Json> = Vec::new();
    let mut i: usize = 0;
    while i < groups.len()
        invariant
            i <= groups.len(),
            jv_items(items@) == groups_view(groups@).take(i as int).map_values(|g: GroupV| group_jv(g)),
        decreases groups.len() - i,
    {
        push_item(&mut items, group_json(&groups[i]));
        assert(groups_view(groups@).take(i + 1).map_values(|g: GroupV| group_jv(g)) =~= groups_view(groups@).take(i as int).map_values(|g: GroupV| group_jv(g)).push(group_jv(groups@[i as int]@)));
        i = i + 1;
    }
    assert(groups_view(groups@).take(groups.len() as int) =~= groups_view(groups@));
    listing(timestamp, "groups", items)
}

pub open spec fn group_row(g: GroupV) -> Seq<Seq<char>> {
    seq![g.name, crate::text::dec(g.gid as nat), join(g.members, seq![','])]
}

/// Build the human-readable table via the shared renderer.
pub fn to_table(groups: &[Group]) -> (r: String)
    ensures
        r@ == table(
            seq!["Name"@, "GID"@, "Members"@],
            groups_view(groups@).map_values(|g: GroupV| group_row(g)),
            seq![Align::Left, Align::Right, Align::Left],
        ),
{
    let mut rows: Vec<Vec<String>> = Vec::new();
    let mut i: usize = 0;
    while i < groups.len()
        invariant
            i <= groups.len(),
            rows_view(rows@) == groups_view(groups@).take(i as int).map_values(|g: GroupV| group_row(g)),
        decreases groups.len() - i,
    {
        let g = &groups[i];
        let mut ms: Vec<Vec<char>> = Vec::new();
        let mut k: usize = 0;
        while k < g.members.len()
            invariant
                k <= g.members.len(),
                views(ms@) == g@.members.take(k as int),
            decreases g.members.len() - k,
        {
            let ghost before = ms@;
            ms.push(crate::text::chars_of_string(&g.members[k]));
            assert(views(ms@) =~= views(before).push(g.members@[k as int]@));
            assert(g@.members.take(k + 1) =~= g@.members.take(k as int).push(g.members@[k as int]@));
            k = k + 1;
        }
        assert(g@.members.take(g.members.len() as int) =~= g@.members);
        let sep = [','];
        assert(sep@ =~= seq![',']);
        let joined = to_string(&join_exec(&ms, &sep));
        let row = vec![g.name.clone(), crate::text::u64_to_string(g.gid), joined];
        assert(cells_view(row) =~= group_row(g@));
        let ghost before = rows@;
        rows.push(row);
        assert(rows_view(rows@) =~= rows_view(before).push(group_row(g@)));
        assert(groups_view(groups@).take(i + 1).map_values(|g: GroupV| group_row(g)) =~= groups_view(groups@).take(i as int).map_values(|g: GroupV| group_row(g)).push(group_row(groups@[i as int]@)));
        i = i + 1;
    }
    assert(groups_view(groups@).take(groups.len() as int) =~= groups_view(groups@));
    let headers = ["Name", "GID", "Members"];
    let align = [Align::Left, Align::Right, Align::Left];
    assert(headers_view(headers@) =~= seq!["Name"@, "GID"@, "Members"@]);
    assert(align@ =~= seq![Align::Left, Align::Right, Align::Left]);
    render(&headers, &rows, &align)
}

} // verus!
