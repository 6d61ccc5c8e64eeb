//! `get-cinnamon-desktop`: the Cinnamon version (`cinnamon --version`) and
//! a few theme/interface settings (`gsettings get`, best effort).
use vstd::prelude::*;
use crate::json::{jstr, jv, jv_entries, lemma_jv_entries_push, push_member, Json, JsonV};
use crate::table::{cells_view, headers_view, render, rows_view, table, Align};
use crate::text::{
    chars_of, chars_of_string, lemma_filter_map_step, lines, lines_exec, strip_prefix, strip_prefix_exec,
    strip_suffix, strip_suffix_exec, string_of, to_string, trim, trim_exec,
};

verus! {

/// One `gsettings get` query and how its value is shown.
pub struct SettingQuery {
    pub schema: String,
    pub key: String,
    /// JSON key (snake_case).
    pub json_key: String,
    /// Human-readable table label.
    pub label: String,
}

/// A single resolved setting: its JSON key, its table label and its value.
pub struct Setting {
    pub key: String,
    pub label: String,
    pub value: String,
}

pub struct Desktop {
    pub timestamp: String,
    /// Cinnamon version string, if `cinnamon --version` succeeded.
    pub version: Option<String>,
    /// Best-effort gsettings values; entries that failed are omitted.
    pub settings: Vec<Setting>,
}

pub struct QueryV {
    pub schema: Seq<char>,
    pub key: Seq<char>,
    pub json_key: Seq<char>,
    pub label: Seq<char>,
}

pub struct SettingV {
    pub key: Seq<char>,
    pub label: Seq<char>,
    pub value: Seq<char>,
}

impl View for SettingQuery {
    type V = QueryV;

    open spec fn view(&self) -> QueryV {
        QueryV { schema: self.schema@, key: self.key@, json_key: self.json_key@, label: self.label@ }
    }
}

impl View for Setting {
    type V = SettingV;

    open spec fn view(&self) -> SettingV {
        SettingV { key: self.key@, label: self.label@, value: self.value@ }
    }
}

pub open spec fn queries_view(v: Seq<SettingQuery>) -> Seq<QueryV> {
    v.map_values(|q: SettingQuery| q@)
}

pub open spec fn settings_view(v: Seq<Setting>) -> Seq<SettingV> {
    v.map_values(|s: Setting| s@)
}

pub open spec fn opt_string_view(o: Option<String>) -> Option<Seq<char>> {
    match o {
        Some(s) => Some(s@),
        None => None,
    }
}

/// The version token of `cinnamon --version` output (typically
/// `Cinnamon 5.6.8`): the first line, trimmed, without its `Cinnamon `
/// prefix, trimmed again; none when there is no line or nothing is left.
pub open spec fn version_of(out: Seq<char>) -> Option<Seq<char>> {
    let ls = lines(out);
    if ls.len() == 0 {
        None
    } else {
        let line = trim(ls[0]);
        let v = trim(
            match strip_prefix(line, "Cinnamon "@) {
                Some(rest) => rest,
                None => line,
            },
        );
        if v.len() == 0 {
            None
        } else {
            Some(v)
        }
    }
}

/// Extract the Cinnamon version from `cinnamon --version` output.
pub fn cinnamon_version(out: &str) -> (r: Option<String>)
    ensures
        opt_string_view(r) == version_of(out@),
{
    let ls = lines_exec(&chars_of(out));
    if ls.len() == 0 {
        return None;
    }
    let line = trim_exec(&ls[0]);
    let v = match strip_prefix_exec(&line, "Cinnamon ") {
        Some(rest) => trim_exec(&rest),
        None => trim_exec(&line),
    };
    if v.len() == 0 {
        None
    } else {
        Some(to_string(&v))
    }
}

/// A `gsettings get` value: trimmed, with one pair of surrounding single
/// quotes removed (`'Mint-Y'` gives `Mint-Y`); none when nothing is left.
pub open spec fn setting_value_of(out: Seq<char>) -> Option<Seq<char>> {
    let t = trim(out);
    let u = match strip_prefix(t, "'"@) {
        Some(s) => match strip_suffix(s, "'"@) {
            Some(w) => w,
            None => t,
        },
        None => t,
    };
    if u.len() == 0 {
        None
    } else {
        Some(u)
    }
}

/// Unquote a `gsettings get` value.
pub fn gsettings_value(out: &str) -> (r: Option<String>)
    ensures
        opt_string_view(r) == setting_value_of(out@),
{
    let t = trim_exec(&chars_of(out));
    let u = match strip_prefix_exec(&t, "'") {
        Some(s) => match strip_suffix_exec(&s, "'") {
            Some(w) => w,
            None => t,
        },
        None => t,
    };
    if u.len() == 0 {
        None
    } else {
        Some(to_string(&u))
    }
}

/// The settings queried, in order: `(schema, key, JSON key, label)`.
pub open spec fn queries_spec() -> Seq<QueryV> {
    seq![
        QueryV {
            schema: "org.cinnamon.desktop.interface"@,
            key: "gtk-theme"@,
            json_key: "gtk_theme"@,
            label: "GTK Theme"@,
        },
        QueryV {
            schema: "org.cinnamon.desktop.interface"@,
            key: "icon-theme"@,
            json_key: "icon_theme"@,
            label: "Icon Theme"@,
        },
        QueryV {
            schema: "org.cinnamon.desktop.interface"@,
            key: "cursor-theme"@,
            json_key: "cursor_theme"@,
            label: "Cursor Theme"@,
        },
        QueryV {
            schema: "org.cinnamon.desktop.interface"@,
            key: "font-name"@,
            json_key: "font_name"@,
            label: "Font"@,
        },
        QueryV { schema: "org.cinnamon"@, key: "theme name"@, json_key: "cinnamon_theme"@, label: "Cinnamon Theme"@ },
    ]
}

fn query(schema: &str, key: &str, json_key: &str, label: &str) -> (r: SettingQuery)
    ensures
        r@ == (QueryV { schema: schema@, key: key@, json_key: json_key@, label: label@ }),
{
    SettingQuery { schema: string_of(schema), key: string_of(key), json_key: string_of(json_key), label: string_of(label) }
}

/// The settings to query.
pub fn setting_queries() -> (r: Vec<SettingQuery>)
    ensures
        queries_view(r@) == queries_spec(),
{
    let mut v: Vec<SettingQuery> = Vec::new();
    v.push(query("org.cinnamon.desktop.interface", "gtk-theme", "gtk_theme", "GTK Theme"));
    v.push(query("org.cinnamon.desktop.interface", "icon-theme", "icon_theme", "Icon Theme"));
    v.push(query("org.cinnamon.desktop.interface", "cursor-theme", "cursor_theme", "Cursor Theme"));
    v.push(query("org.cinnamon.desktop.interface", "font-name", "font_name", "Font"));
    v.push(query("org.cinnamon", "theme name", "cinnamon_theme", "Cinnamon Theme"));
    assert(queries_view(v@) =~= queries_spec());
    v
}

/// The setting a query yields from its `gsettings get` output (none when
/// the command failed or the value is empty).
pub open spec fn setting_of(q: QueryV, out: Option<Seq<char>>) -> Option<SettingV> {
    match out {
        Some(o) => match setting_value_of(o) {
            Some(v) => Some(SettingV { key: q.json_key, label: q.label, value: v }),
            None => None,
        },
        None => None,
    }
}

/// The output for query `i`; a missing output counts as a failed command.
pub open spec fn output_at(outs: Seq<Option<Seq<char>>>, i: int) -> Option<Seq<char>> {
    if 0 <= i < outs.len() {
        outs[i]
    } else {
        None
    }
}

/// The settings resolved from the outputs of the queries, in query order.
pub open spec fn settings_of(qs: Seq<QueryV>, outs: Seq<Option<Seq<char>>>) -> Seq<SettingV> {
    Seq::new(qs.len(), |i: int| setting_of(qs[i], output_at(outs, i))).filter_map(|s: Option<SettingV>| s)
}

/// Collect the settings whose query succeeded; `outputs[i]` is the output of
/// `gsettings get` for `queries[i]` (`None` when the command failed).
pub fn collect_settings(queries: &Vec<SettingQuery>, outputs: &Vec<Option<String>>) -> (r: Vec<Setting>)
    ensures
        settings_view(r@) == settings_of(queries_view(queries@), outputs@.map_values(|o: Option<String>| opt_string_view(o))),
{
    let ghost qv = queries_view(queries@);
    let ghost ov = outputs@.map_values(|o: Option<String>| opt_string_view(o));
    let ghost all = Seq::new(qv.len(), |i: int| setting_of(qv[i], output_at(ov, i)));
    let mut out: Vec<Setting> = Vec::new();
    let mut i: usize = 0;
    while i < queries.len()
        invariant
            i <= queries.len(),
            qv == queries_view(queries@),
            ov == outputs@.map_values(|o: Option<String>| opt_string_view(o)),
            all == Seq::new(qv.len(), |i: int| setting_of(qv[i], output_at(ov, i))),
            settings_view(out@) == all.take(i as int).filter_map(|s: Option<SettingV>| s),
        decreases queries.len() - i,
    {
        proof {
            lemma_filter_map_step(all, |s: Option<SettingV>| s, i as int);
        }
        let q = &queries[i];
        let value = if i < outputs.len() {
            match &outputs[i] {
                Some(o) => gsettings_value(o.as_str()),
                None => None,
            }
        } else {
            None
        };
        assert(all[i as int] == setting_of(q@, output_at(ov, i as int)));
        let ghost before = out@;
        match value {
            Some(v) => {
                let s = Setting { key: q.json_key.clone(), label: q.label.clone(), value: v };
                out.push(s);
                assert(settings_view(out@) =~= settings_view(before).push(s@));
            },
            None => {},
        }
        i = i + 1;
    }
    assert(all.take(queries.len() as int) =~= all);
    out
}

pub open spec fn desktop_jv(timestamp: Seq<char>, version: Option<Seq<char>>, settings: Seq<SettingV>) -> JsonV {
    JsonV::Object(
        seq![("timestamp"@, JsonV::Str(timestamp))] + match version {
            Some(v) => seq![("version"@, JsonV::Str(v))],
            None => seq![],
        } + settings.map_values(|s: SettingV| (s.key, JsonV::Str(s.value))),
    )
}

/// Build the structured JSON value: `{ timestamp, version?, <settings...> }`.
pub fn to_json(d: &Desktop) -> (r: Json)
    ensures
        jv(r) == desktop_jv(d.timestamp@, opt_string_view(d.version), settings_view(d.settings@)),
{
    let mut e: Vec<(String, Json)> = Vec::new();
    push_member(&mut e, "timestamp", jstr(&d.timestamp));
    match &d.version {
        Some(v) => {
            push_member(&mut e, "version", jstr(v));
        },
        None => {},
    }
    let ghost head = jv_entries(e@);
    assert(head =~= seq![("timestamp"@, JsonV::Str(d.timestamp@))] + match opt_string_view(d.version) {
        Some(v) => seq![("version"@, JsonV::Str(v))],
        None => Seq::<(Seq<char>, JsonV)>::empty(),
    });
    let ghost sv = settings_view(d.settings@);
    let mut i: usize = 0;
    while i < d.settings.len()
        invariant
            i <= d.settings.len(),
            sv == settings_view(d.settings@),
            jv_entries(e@) == head + sv.take(i as int).map_values(|s: SettingV| (s.key, JsonV::Str(s.value))),
        decreases d.settings.len() - i,
    {
        let s = &d.settings[i];
        let ghost before = e@;
        let pair = (s.key.clone(), jstr(&s.value));
        e.push(pair);
        proof {
            lemma_jv_entries_push(before, pair);
        }
        assert(jv_entries(e@) == jv_entries(before).push((s.key@, JsonV::Str(s.value@))));
        assert(sv.take(i + 1).map_values(|s: SettingV| (s.key, JsonV::Str(s.value))) =~= sv.take(i as int).map_values(|s: SettingV| (s.key, JsonV::Str(s.value))).push((sv[i as int].key, JsonV::Str(sv[i as int].value))));
        i = i + 1;
    }
    assert(sv.take(d.settings.len() as int) =~= sv);
    Json::Object(e)
}

pub open spec fn setting_row(s: SettingV) -> Seq<Seq<char>> {
    seq![s.label, s.value]
}

/// The rows of the table: the version (`unknown` when absent), then one row
/// per setting.
pub open spec fn desktop_rows(version: Option<Seq<char>>, settings: Seq<SettingV>) -> Seq<Seq<Seq<char>>> {
    seq![
        seq![
            "Version"@,
            match version {
                Some(v) => v,
                None => "unknown"@,
            },
        ],
    ] + settings.map_values(|s: SettingV| setting_row(s))
}

/// Build the human-readable table (Property / Value rows).
pub fn to_table(d: &Desktop) -> (r: String)
    ensures
        r@ == table(
            seq!["Property"@, "Value"@],
            desktop_rows(opt_string_view(d.version), settings_view(d.settings@)),
            seq![Align::Left, Align::Left],
        ),
{
    let mut rows: Vec<Vec<String>> = Vec::new();
    let version = match &d.version {
        Some(v) => v.clone(),
        None => string_of("unknown"),
    };
    let first = vec![string_of("Version"), version];
    let ghost fv = cells_view(first);
    assert(fv =~= seq![
        "Version"@,
        match opt_string_view(d.version) {
            Some(v) => v,
            None => "unknown"@,
        },
    ]);
    rows.push(first);
    let ghost sv = settings_view(d.settings@);
    let ghost head = seq![fv];
    assert(rows_view(rows@) =~= head);
    let mut i: usize = 0;
    while i < d.settings.len()
        invariant
            i <= d.settings.len(),
            sv == settings_view(d.settings@),
            rows_view(rows@) == head + sv.take(i as int).map_values(|s: SettingV| setting_row(s)),
        decreases d.settings.len() - i,
    {
        let s = &d.settings[i];
        let row = vec![s.label.clone(), s.value.clone()];
        assert(cells_view(row) =~= seq![s.label@, s.value@]);
        let ghost before = rows@;
        rows.push(row);
        assert(rows_view(rows@) =~= rows_view(before).push(seq![s.label@, s.value@]));
        assert(sv.take(i + 1).map_values(|s: SettingV| setting_row(s)) =~= sv.take(i as int).map_values(|s: SettingV| setting_row(s)).push(setting_row(sv[i as int])));
        i = i + 1;
    }
    assert(sv.take(d.settings.len() as int) =~= sv);
    let ghost m = sv.map_values(|s: SettingV| setting_row(s));
    assert(rows_view(rows@) == head + m);
    let ghost x = seq![
        "Version"@,
        match opt_string_view(d.version) {
            Some(v) => v,
            None => "unknown"@,
        },
    ];
    assert(desktop_rows(opt_string_view(d.version), sv)[0] =~= x);
    assert(desktop_rows(opt_string_view(d.version), sv) =~= seq![x] + m);
    assert(head =~= seq![x]);
    assert(rows_view(rows@) =~= desktop_rows(opt_string_view(d.version), sv));
    let headers = ["Property", "Value"];
    let align = [Align::Left, Align::Left];
    assert(headers_view(headers@) =~= seq!["Property"@, "Value"@]);
    assert(align@ =~= seq![Align::Left, Align::Left]);
    render(&headers, &rows, &align)
}

} // verus!
