//! `get-provider`: the known package providers and whether they are
//! installed, probed with `<tool> --version`.
use vstd::prelude::*;
use crate::commands::cinnamon_desktop::opt_string_view;
use crate::commands::common::{yes_no, yes_no_exec};
use crate::json::{jopt_str, jstr, jv, jv_entries, jv_items, listing, listing_jv, opt_str_jv, push_item, push_member, Json, JsonV};
use crate::table::{cells_view, headers_view, render, rows_view, table, Align};
use crate::text::{chars_of, lines, lines_exec, string_of, to_string, trim, trim_exec, views};

verus! {

pub struct Provider {
    pub name: String,
    pub available: bool,
    /// First non-empty line of `--version` output, or `None` when the tool
    /// is absent.
    pub version: Option<String>,
}

pub struct ProviderV {
    pub name: Seq<char>,
    pub available: bool,
    pub version: Option<Seq<char>>,
}

impl View for Provider {
    type V = ProviderV;

    open spec fn view(&self) -> ProviderV {
        ProviderV { name: self.name@, available: self.available, version: opt_string_view(self.version) }
    }
}

pub open spec fn providers_view(v: Seq<Provider>) -> Seq<ProviderV> {
    v.map_values(|p: Provider| p@)
}

/// The providers probed, in display order.
pub open spec fn provider_names_spec() -> Seq<Seq<char>> {
    seq!["apt"@, "dpkg"@, "flatpak"@, "snap"@]
}

/// The providers probed, in display order.
pub fn provider_names() -> (r: Vec<String>)
    ensures
        r@.map_values(|s: String| s@) == provider_names_spec(),
{
    let r = vec![string_of("apt"), string_of("dpkg"), string_of("flatpak"), string_of("snap")];
    assert(r@.map_values(|s: String| s@) =~= provider_names_spec());
    r
}

/// The first non-empty line of `ls`, trimmed.
pub open spec fn first_nonempty(ls: Seq<Seq<char>>) -> Option<Seq<char>>
    decreases ls.len(),
{
    if ls.len() == 0 {
        None
    } else if trim(ls[0]).len() > 0 {
        Some(trim(ls[0]))
    } else {
        first_nonempty(ls.drop_first())
    }
}

/// What probing `name` finds: when `<name> --version` ran (`out` holds its
/// output) the provider is available and its version is the first non-empty
/// line of the output, trimmed; when it could not run, the provider is
/// absent.
pub open spec fn provider_of(name: Seq<char>, out: Option<Seq<char>>) -> ProviderV {
    match out {
        Some(o) => ProviderV { name, available: true, version: first_nonempty(lines(o)) },
        None => ProviderV { name, available: false, version: None },
    }
}

/// The provider `name`, given the output of `<name> --version` (`None` when
/// the command could not be run or failed).
pub fn probe_result(name: &str, out: Option<&str>) -> (r: Provider)
    ensures
        r@ == provider_of(
            name@,
            match out {
                Some(o) => Some(o@),
                None => None,
            },
        ),
{
    match out {
        None => Provider { name: string_of(name), available: false, version: None },
        Some(o) => {
            let ls = lines_exec(&chars_of(o));
            Provider { name: string_of(name), available: true, version: first_nonempty_line(&ls) }
        },
    }
}

fn first_nonempty_line(ls: &Vec<Vec<char>>) -> (r: Option<String>)
    ensures
        opt_string_view(r) == first_nonempty(views(ls@)),
{
    let ghost lv = views(ls@);
    let mut i: usize = 0;
    assert(lv.skip(0) =~= lv);
    while i < ls.len()
        invariant
            i <= ls.len(),
            lv == views(ls@),
            first_nonempty(lv.skip(i as int)) == first_nonempty(lv),
        decreases ls.len() - i,
    {
        assert(lv.skip(i as int)[0] == ls@[i as int]@);
        assert(lv.skip(i as int).drop_first() =~= lv.skip(i + 1));
        let t = trim_exec(&ls[i]);
        if t.len() > 0 {
            return Some(to_string(&t));
        }
        i = i + 1;
    }
    assert(lv.skip(i as int).len() == 0);
    None
}

pub open spec fn version_jv(v: Option<Seq<char>>) -> JsonV {
    match v {
        Some(s) => JsonV::Str(s),
        None => JsonV::Null,
    }
}

pub open spec fn provider_jv(p: ProviderV) -> JsonV {
    JsonV::Object(
        seq![("name"@, JsonV::Str(p.name)), ("available"@, JsonV::Bool(p.available)), ("version"@, version_jv(p.version))],
    )
}

fn provider_json(p: &Provider) -> (r: Json)
    ensures
        jv(r) == provider_jv(p@),
{
    let mut e: Vec<(String, Json)> = Vec::new();
    push_member(&mut e, "name", jstr(&p.name));
    push_member(&mut e, "available", Json::Bool(p.available));
    push_member(&mut e, "version", jopt_str(&p.version));
    assert(opt_str_jv(p.version) == version_jv(p@.version));
    assert(jv_entries(e@) =~= seq![
        ("name"@, JsonV::Str(p.name@)),
        ("available"@, JsonV::Bool(p.available)),
        ("version"@, version_jv(p@.version)),
    ]);
    Json::Object(e)
}

/// Build the structured JSON value: `{ timestamp, providers: [...] }`.
pub fn to_json(providers: &[Provider], timestamp: &String) -> (r: Json)
    ensures
        jv(r) == listing_jv(timestamp@, "providers"@, providers_view(providers@).map_values(|p: ProviderV| provider_jv(p))),
{
    let mut items: Vec<Json> = Vec::new();
    let mut i: usize = 0;
    while i < providers.len()
        invariant
            i <= providers.len(),
            jv_items(items@) == providers_view(providers@).take(i as int).map_values(|p: ProviderV| provider_jv(p)),
        decreases providers.len() - i,
    {
        push_item(&mut items, provider_json(&providers[i]));
        assert(providers_view(providers@).take(i + 1).map_values(|p: ProviderV| provider_jv(p)) =~= providers_view(providers@).take(i as int).map_values(|p: ProviderV| provider_jv(p)).push(provider_jv(providers@[i as int]@)));
        i = i + 1;
    }
    assert(providers_view(providers@).take(providers.len() as int) =~= providers_view(providers@));
    listing(timestamp, "providers", items)
}

pub open spec fn provider_row(p: ProviderV) -> Seq<Seq<char>> {
    seq![
        p.name,
        yes_no(p.available),
        match p.version {
            Some(v) => v,
            None => "-"@,
        },
    ]
}

/// Build the human-readable table via the shared renderer.
pub fn to_table(providers: &[Provider]) -> (r: String)
    ensures
        r@ == table(
            seq!["Provider"@, "Available"@, "Version"@],
            providers_view(providers@).map_values(|p: ProviderV| provider_row(p)),
            seq![Align::Left, Align::Left, Align::Left],
        ),
{
    let mut rows: Vec<Vec<String>> = Vec::new();
    let mut i: usize = 0;
    while i < providers.len()
        invariant
            i <= providers.len(),
            rows_view(rows@) == providers_view(providers@).take(i as int).map_values(|p: ProviderV| provider_row(p)),
        decreases providers.len() - i,
    {
        let p = &providers[i];
        let version = match &p.version {
            Some(v) => v.clone(),
            None => string_of("-"),
        };
        let row = vec![p.name.clone(), yes_no_exec(p.available), version];
        assert(cells_view(row) =~= provider_row(providers@[i as int]@));
        let ghost before = rows@;
        rows.push(row);
        assert(rows_view(rows@) =~= rows_view(before).push(provider_row(providers@[i as int]@)));
        assert(providers_view(providers@).take(i + 1).map_values(|p: ProviderV| provider_row(p)) =~= providers_view(providers@).take(i as int).map_values(|p: ProviderV| provider_row(p)).push(provider_row(providers@[i as int]@)));
        i = i + 1;
    }
    assert(providers_view(providers@).take(providers.len() as int) =~= providers_view(providers@));
    let headers = ["Provider", "Available", "Version"];
    let align = [Align::Left, Align::Left, Align::Left];
    assert(headers_view(headers@) =~= seq!["Provider"@, "Available"@, "Version"@]);
    assert(align@ =~= seq![Align::Left, Align::Left, Align::Left]);
    render(&headers, &rows, &align)
}

} // verus!
