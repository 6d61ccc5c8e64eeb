//! `get-package`: installed packages (dpkg) — name, version, architecture,
//! status — from `dpkg-query -W -f='${Package}\t${Version}\t${Architecture}\t${Status}\n'`.
use vstd::prelude::*;
use crate::json::{jstr, jv, jv_items, listing, listing_jv, push_item, push_member, Json, JsonV, jv_entries};
use crate::table::{render, table, rows_view, headers_view, cells_view, Align};
use crate::text::{chars_of, lemma_filter_map_step, lines, lines_exec, splitn, splitn_exec, to_string, views};

verus! {

pub struct Package {
    pub name: String,
    pub version: String,
    pub architecture: String,
    pub status: String,
}

pub struct PackageV {
    pub name: Seq<char>,
    pub version: Seq<char>,
    pub architecture: Seq<char>,
    pub status: Seq<char>,
}

impl View for Package {
    type V = PackageV;

    open spec fn view(&self) -> PackageV {
        PackageV {
            name: self.name@,
            version: self.version@,
            architecture: self.architecture@,
            status: self.status@,
        }
    }
}

pub open spec fn packages_view(v: Seq<Package>) -> Seq<PackageV> {
    v.map_values(|p: Package| p@)
}

/// One tab-separated record; the status (the fourth field) keeps any tabs
/// and spaces of the rest of the line. Empty lines and lines with fewer than
/// four fields hold no package.
pub open spec fn package_line(line: Seq<char>) -> Option<PackageV> {
    let f = splitn(line, 4, '\t');
    if line.len() == 0 || f.len() < 4 {
        None
    } else {
        Some(PackageV { name: f[0], version: f[1], architecture: f[2], status: f[3] })
    }
}

pub open spec fn package_parser() -> spec_fn(Seq<char>) -> Option<PackageV> {
    |l: Seq<char>| package_line(l)
}

/// The packages listed in `dpkg-query` output, one per line, in order.
pub open spec fn packages_of(text: Seq<char>) -> Seq<PackageV> {
    lines(text).filter_map(package_parser())
}

fn parse_package_line(line: &Vec<char>) -> (r: Option<Package>)
    ensures
        match package_line(line@) {
            Some(p) => r is Some && r->0@ == p,
            None => r is None,
        },
{
    if line.len() == 0 {
        return None;
    }
    let f = splitn_exec(line, 4, '\t');
    assert(views(f@)[0] == f@[0]@);
    if f.len() < 4 {
        return None;
    }
    assert(views(f@)[1] == f@[1]@);
    assert(views(f@)[2] == f@[2]@);
    assert(views(f@)[3] == f@[3]@);
    Some(
        Package {
            name: to_string(&f[0]),
            version: to_string(&f[1]),
            architecture: to_string(&f[2]),
            status: to_string(&f[3]),
        },
    )
}

/// Parse the `dpkg-query` listing, one tab-separated record per package.
pub fn parse_packages(text: &str) -> (r: Vec<Package>)
    ensures
        packages_view(r@) == packages_of(text@),
{
    let t = chars_of(text);
    let ls = lines_exec(&t);
    let ghost lv = views(ls@);
    let mut out: Vec<Package> = Vec::new();
    let mut i: usize = 0;
    while i < ls.len()
        invariant
            i <= ls.len(),
            lv == views(ls@),
            lv == lines(text@),
            packages_view(out@) == lv.take(i as int).filter_map(package_parser()),
        decreases ls.len() - i,
    {
        proof {
            lemma_filter_map_step(lv, package_parser(), i as int);
        }
        assert(lv[i as int] == ls@[i as int]@);
        let ghost before = out@;
        match parse_package_line(&ls[i]) {
            Some(p) => {
                out.push(p);
                assert(packages_view(out@) =~= packages_view(before).push(p@));
            },
            None => {},
        }
        i = i + 1;
    }
    assert(lv.take(ls.len() as int) =~= lv);
    out
}

pub open spec fn package_jv(p: PackageV) -> JsonV {
    JsonV::Object(
        seq![
            ("name"@, JsonV::Str(p.name)),
            ("version"@, JsonV::Str(p.version)),
            ("architecture"@, JsonV::Str(p.architecture)),
            ("status"@, JsonV::Str(p.status)),
        ],
    )
}

/// Build the structured JSON value: `{ timestamp, packages: [...] }`.
pub fn to_json(packages: &[Package], timestamp: &String) -> (r: Json)
    ensures
        jv(r) == listing_jv(timestamp@, "packages"@, packages_view(packages@).map_values(|p: PackageV| package_jv(p))),
{
    let mut items: Vec<Json> = Vec::new();
    let mut i: usize = 0;
    while i < packages.len()
        invariant
            i <= packages.len(),
            jv_items(items@) == packages_view(packages@).take(i as int).map_values(|p: PackageV| package_jv(p)),
        decreases packages.len() - i,
    {
        let p = &packages[i];
        let mut e: Vec<(String, Json)> = Vec::new();
        push_member(&mut e, "name", jstr(&p.name));
        push_member(&mut e, "version", jstr(&p.version));
        push_member(&mut e, "architecture", jstr(&p.architecture));
        push_member(&mut e, "status", jstr(&p.status));
        assert(jv_entries(Seq::<(String, Json)>::empty()) =~= Seq::empty());
        assert(jv_entries(e@) =~= seq![
            ("name"@, JsonV::Str(p.name@)),
            ("version"@, JsonV::Str(p.version@)),
            ("architecture"@, JsonV::Str(p.architecture@)),
            ("status"@, JsonV::Str(p.status@)),
        ]);
        push_item(&mut items, Json::Object(e));
        assert(packages_view(packages@).take(i + 1).map_values(|p: PackageV| package_jv(p)) =~= packages_view(packages@).take(i as int).map_values(|p: PackageV| package_jv(p)).push(package_jv(packages@[i as int]@)));
        i = i + 1;
    }
    assert(packages_view(packages@).take(packages.len() as int) =~= packages_view(packages@));
    listing(timestamp, "packages", items)
}

pub open spec fn package_row(p: PackageV) -> Seq<Seq<char>> {
    seq![p.name, p.version, p.architecture, p.status]
}

/// Build the human-readable table via the shared renderer.
pub fn to_table(packages: &[Package]) -> (r: String)
    ensures
        r@ == table(
            seq!["Name"@, "Version"@, "Architecture"@, "Status"@],
            packages_view(packages@).map_values(|p: PackageV| package_row(p)),
            seq![Align::Left, Align::Left, Align::Left, Align::Left],
        ),
{
    let mut rows: Vec<Vec<String>> = Vec::new();
    let mut i: usize = 0;
    while i < packages.len()
        invariant
            i <= packages.len(),
            rows_view(rows@) == packages_view(packages@).take(i as int).map_values(|p: PackageV| package_row(p)),
        decreases packages.len() - i,
    {
        let p = &packages[i];
        let row = vec![p.name.clone(), p.version.clone(), p.architecture.clone(), p.status.clone()];
        assert(cells_view(row) =~= package_row(p@));
        let ghost before = rows@;
        rows.push(row);
        assert(rows_view(rows@) =~= rows_view(before).push(package_row(p@)));
        assert(packages_view(packages@).take(i + 1).map_values(|p: PackageV| package_row(p)) =~= packages_view(packages@).take(i as int).map_values(|p: PackageV| package_row(p)).push(package_row(packages@[i as int]@)));
        i = i + 1;
    }
    assert(packages_view(packages@).take(packages.len() as int) =~= packages_view(packages@));
    let headers = ["Name", "Version", "Architecture", "Status"];
    let align = [Align::Left, Align::Left, Align::Left, Align::Left];
    assert(headers_view(headers@) =~= seq!["Name"@, "Version"@, "Architecture"@, "Status"@]);
    assert(align@ =~= seq![Align::Left, Align::Left, Align::Left, Align::Left]);
    render(&headers, &rows, &align)
}

} // verus!
