//! `get-video-configuration`: display outputs and their current resolution,
//! from `xrandr --query`.
use vstd::prelude::*;
use crate::commands::cinnamon_desktop::opt_string_view;
use crate::commands::common::{yes_no, yes_no_exec};
use crate::json::{jopt_str, jstr, jv, jv_entries, jv_items, listing, listing_jv, opt_str_jv, push_item, push_member, Json, JsonV};
use crate::table::{cells_view, headers_view, render, rows_view, table, Align};
use crate::text::{
    chars_of, eq_str, find, find_exec, is_digit, is_digit_exec, lemma_filter_map_step, lemma_find, lines, lines_exec,
    slice, starts_with_str, string_of, to_string, views, words, words_exec,
};

verus! {

pub struct Output {
    pub name: String,
    pub connected: bool,
    pub primary: bool,
    /// Current resolution (e.g. `1920x1080`) when the output is active.
    pub resolution: Option<String>,
}

pub struct OutputV {
    pub name: Seq<char>,
    pub connected: bool,
    pub primary: bool,
    pub resolution: Option<Seq<char>>,
}

impl View for Output {
    type V = OutputV;

    open spec fn view(&self) -> OutputV {
        OutputV {
            name: self.name@,
            connected: self.connected,
            primary: self.primary,
            resolution: opt_string_view(self.resolution),
        }
    }
}

pub open spec fn outputs_view(v: Seq<Output>) -> Seq<OutputV> {
    v.map_values(|o: Output| o@)
}

/// A geometry token such as `1920x1080+0+0`: it starts with a digit and
/// contains both `x` and `+`.
pub open spec fn is_geometry(tok: Seq<char>) -> bool {
    tok.len() > 0 && is_digit(tok[0]) && find(tok, 'x') is Some && find(tok, '+') is Some
}

/// The resolution in a geometry token: the part before its first `+`.
pub open spec fn resolution_in(tok: Seq<char>) -> Seq<char> {
    match find(tok, '+') {
        Some(i) => tok.take(i),
        None => tok,
    }
}

/// The resolution of the first geometry token of `tokens`, if any.
pub open spec fn current_resolution_of(tokens: Seq<Seq<char>>) -> Option<Seq<char>>
    decreases tokens.len(),
{
    if tokens.len() == 0 {
        None
    } else if is_geometry(tokens[0]) {
        Some(resolution_in(tokens[0]))
    } else {
        current_resolution_of(tokens.drop_first())
    }
}

/// Pull the active resolution from an output header line's tokens: xrandr
/// renders an active output as `<name> connected [primary] WxH+X+Y ...`.
pub fn current_resolution(tokens: &Vec<Vec<char>>) -> (r: Option<String>)
    ensures
        opt_string_view(r) == current_resolution_of(views(tokens@)),
{
    let ghost tv = views(tokens@);
    let mut i: usize = 0;
    assert(tv.skip(0) =~= tv);
    while i < tokens.len()
        invariant
            i <= tokens.len(),
            tv == views(tokens@),
            current_resolution_of(tv.skip(i as int)) == current_resolution_of(tv),
        decreases tokens.len() - i,
    {
        assert(tv.skip(i as int)[0] == tokens@[i as int]@);
        assert(tv.skip(i as int).drop_first() =~= tv.skip(i + 1));
        let tok = &tokens[i];
        proof {
            lemma_find(tok@, 'x');
            lemma_find(tok@, '+');
        }
        if tok.len() > 0 && is_digit_exec(tok[0]) && find_exec(tok, 'x').is_some() {
            match find_exec(tok, '+') {
                Some(p) => {
                    return Some(to_string(&slice(tok, 0, p)));
                },
                None => {},
            }
        }
        i = i + 1;
    }
    assert(tv.skip(i as int).len() == 0);
    None
}

/// One `xrandr --query` line. Output header lines are not indented and are
/// not the leading `Screen` summary; mode lines (indented) and blank lines
/// hold no output. The first token names the output; it is connected when
/// the second token is `connected`, primary when any token is `primary`, and
/// a connected output's resolution is that of its geometry token.
pub open spec fn output_line(line: Seq<char>) -> Option<OutputV> {
    let t = words(line);
    if (line.len() > 0 && (line[0] == ' ' || line[0] == '\t')) || "Screen"@.is_prefix_of(line) || t.len() == 0 {
        None
    } else {
        let connected = t.len() > 1 && t[1] == "connected"@;
        Some(
            OutputV {
                name: t[0],
                connected,
                primary: t.contains("primary"@),
                resolution: if connected {
                    current_resolution_of(t)
                } else {
                    None
                },
            },
        )
    }
}

pub open spec fn output_parser() -> spec_fn(Seq<char>) -> Option<OutputV> {
    |l: Seq<char>| output_line(l)
}

/// The outputs listed by `xrandr --query`, in order.
pub open spec fn outputs_of(text: Seq<char>) -> Seq<OutputV> {
    lines(text).filter_map(output_parser())
}

/// A geometry token `WxH+X+Y`, read character by character: it starts with
/// an ASCII digit and holds an `x` and a `+` somewhere.
pub open spec fn geometry_token(tok: Seq<char>) -> bool {
    &&& tok.len() > 0
    &&& '0' <= tok[0] && tok[0] <= '9'
    &&& exists|k: int| 0 <= k < tok.len() && tok[k] == 'x'
    &&& exists|k: int| 0 <= k < tok.len() && tok[k] == '+'
}

/// `r` is the text of `tok` before its first `+`.
pub open spec fn before_first_plus(tok: Seq<char>, r: Seq<char>) -> bool {
    exists|p: int|
        0 <= p < tok.len() && tok[p] == '+' && (forall|q: int| 0 <= q < p ==> tok[q] != '+') && r == tok.take(p)
}

proof fn lemma_is_geometry(tok: Seq<char>)
    ensures
        is_geometry(tok) == geometry_token(tok),
        is_geometry(tok) ==> before_first_plus(tok, resolution_in(tok)),
{
    lemma_find(tok, 'x');
    lemma_find(tok, '+');
    if geometry_token(tok) {
        let k = choose|k: int| 0 <= k < tok.len() && tok[k] == 'x';
        let q = choose|k: int| 0 <= k < tok.len() && tok[k] == '+';
        assert(tok[k] == 'x');
        assert(tok[q] == '+');
    }
    if is_geometry(tok) {
        let p = find(tok, '+')->0;
        assert(resolution_in(tok) == tok.take(p));
    }
}

proof fn lemma_current_resolution(ts: Seq<Seq<char>>)
    ensures
        match current_resolution_of(ts) {
            Some(r) => exists|i: int|
                0 <= i < ts.len() && geometry_token(#[trigger] ts[i]) && (forall|j: int|
                    0 <= j < i ==> !geometry_token(#[trigger] ts[j])) && before_first_plus(ts[i], r),
            None => forall|i: int| 0 <= i < ts.len() ==> !geometry_token(#[trigger] ts[i]),
        },
    decreases ts.len(),
{
    if ts.len() > 0 {
        lemma_is_geometry(ts[0]);
        if is_geometry(ts[0]) {
            assert(geometry_token(ts[0]));
        } else {
            let rest = ts.drop_first();
            lemma_current_resolution(rest);
            match current_resolution_of(rest) {
                Some(r) => {
                    let i = choose|i: int|
                        0 <= i < rest.len() && geometry_token(#[trigger] rest[i]) && (forall|j: int|
                            0 <= j < i ==> !geometry_token(#[trigger] rest[j])) && before_first_plus(rest[i], r);
                    assert(ts[i + 1] == rest[i]);
                    assert forall|j: int| 0 <= j < i + 1 implies !geometry_token(#[trigger] ts[j]) by {
                        if j > 0 {
                            assert(ts[j] == rest[j - 1]);
                        }
                    }
                },
                None => {
                    assert forall|i: int| 0 <= i < ts.len() implies !geometry_token(#[trigger] ts[i]) by {
                        if i > 0 {
                            assert(ts[i] == rest[i - 1]);
                        }
                    }
                },
            }
        }
    }
}

/// Law: an output header line reports the output named by its first token;
/// it is connected exactly when its second token is `connected`; a
/// connected output's resolution is the text before the first `+` of the
/// first geometry token on its line (none without one), whether or not the
/// output is the primary one; a disconnected output has no resolution.
pub proof fn lemma_output_resolution(line: Seq<char>)
    ensures
        match output_line(line) {
            Some(o) => {
                let t = words(line);
                &&& t.len() > 0 && o.name == t[0]
                &&& o.connected == (t.len() > 1 && t[1] == "connected"@)
                &&& o.primary == t.contains("primary"@)
                &&& !o.connected ==> o.resolution is None
                &&& o.connected ==> match o.resolution {
                    Some(r) => exists|i: int|
                        0 <= i < t.len() && geometry_token(#[trigger] t[i]) && (forall|j: int|
                            0 <= j < i ==> !geometry_token(#[trigger] t[j])) && before_first_plus(t[i], r),
                    None => forall|i: int| 0 <= i < t.len() ==> !geometry_token(#[trigger] t[i]),
                }
            },
            None => true,
        },
{
    lemma_current_resolution(words(line));
}

fn has_token(tokens: &Vec<Vec<char>>, word: &str) -> (r: bool)
    ensures
        r == views(tokens@).contains(word@),
{
    let mut i: usize = 0;
    while i < tokens.len()
        invariant
            i <= tokens.len(),
            forall|k: int| 0 <= k < i ==> views(tokens@)[k] != word@,
        decreases tokens.len() - i,
    {
        if eq_str(&tokens[i], word) {
            assert(views(tokens@)[i as int] == word@);
            return true;
        }
        i = i + 1;
    }
    false
}

fn output_from_line(line: &Vec<char>) -> (r: Option<Output>)
    ensures
        match output_line(line@) {
            Some(o) => r is Some && r->0@ == o,
            None => r is None,
        },
{
    if (line.len() > 0 && (line[0] == ' ' || line[0] == '\t')) || starts_with_str(line, "Screen") {
        return None;
    }
    let t = words_exec(line);
    if t.len() == 0 {
        return None;
    }
    assert(views(t@)[0] == t@[0]@);
    let connected = t.len() > 1 && eq_str(&t[1], "connected");
    let primary = has_token(&t, "primary");
    let resolution = if connected {
        current_resolution(&t)
    } else {
        None
    };
    Some(Output { name: to_string(&t[0]), connected, primary, resolution })
}

/// Parse `xrandr --query` output into one record per output.
pub fn parse_xrandr(text: &str) -> (r: Vec<Output>)
    ensures
        outputs_view(r@) == outputs_of(text@),
{
    let ls = lines_exec(&chars_of(text));
    let ghost lv = views(ls@);
    let mut out: Vec<Output> = Vec::new();
    let mut i: usize = 0;
    while i < ls.len()
        invariant
            i <= ls.len(),
            lv == views(ls@),
            lv == lines(text@),
            outputs_view(out@) == lv.take(i as int).filter_map(output_parser()),
        decreases ls.len() - i,
    {
        proof {
            lemma_filter_map_step(lv, output_parser(), i as int);
        }
        assert(lv[i as int] == ls@[i as int]@);
        let ghost before = out@;
        match output_from_line(&ls[i]) {
            Some(o) => {
                out.push(o);
                assert(outputs_view(out@) =~= outputs_view(before).push(o@));
            },
            None => {},
        }
        i = i + 1;
    }
    assert(lv.take(ls.len() as int) =~= lv);
    out
}

pub open spec fn resolution_jv(r: Option<Seq<char>>) -> JsonV {
    match r {
        Some(s) => JsonV::Str(s),
        None => JsonV::Null,
    }
}

pub open spec fn output_jv(o: OutputV) -> JsonV {
    JsonV::Object(
        seq![
            ("name"@, JsonV::Str(o.name)),
            ("connected"@, JsonV::Bool(o.connected)),
            ("primary"@, JsonV::Bool(o.primary)),
            ("resolution"@, resolution_jv(o.resolution)),
        ],
    )
}

fn output_json(o: &Output) -> (r: Json)
    ensures
        jv(r) == output_jv(o@),
{
    let mut e: Vec<(String, Json)> = Vec::new();
    push_member(&mut e, "name", jstr(&o.name));
    push_member(&mut e, "connected", Json::Bool(o.connected));
    push_member(&mut e, "primary", Json::Bool(o.primary));
    push_member(&mut e, "resolution", jopt_str(&o.resolution));
    assert(opt_str_jv(o.resolution) == resolution_jv(o@.resolution));
    assert(jv_entries(e@) =~= seq![
        ("name"@, JsonV::Str(o.name@)),
        ("connected"@, JsonV::Bool(o.connected)),
        ("primary"@, JsonV::Bool(o.primary)),
        ("resolution"@, resolution_jv(o@.resolution)),
    ]);
    Json::Object(e)
}

/// Build the structured JSON value: `{ timestamp, outputs: [...] }`.
pub fn to_json(outputs: &[Output], timestamp: &String) -> (r: Json)
    ensures
        jv(r) == listing_jv(timestamp@, "outputs"@, outputs_view(outputs@).map_values(|o: OutputV| output_jv(o))),
{
    let mut items: Vec<Json> = Vec::new();
    let mut i: usize = 0;
    while i < outputs.len()
        invariant
            i <= outputs.len(),
            jv_items(items@) == outputs_view(outputs@).take(i as int).map_values(|o: OutputV| output_jv(o)),
        decreases outputs.len() - i,
    {
        push_item(&mut items, output_json(&outputs[i]));
        assert(outputs_view(outputs@).take(i + 1).map_values(|o: OutputV| output_jv(o)) =~= outputs_view(outputs@).take(i as int).map_values(|o: OutputV| output_jv(o)).push(output_jv(outputs@[i as int]@)));
        i = i + 1;
    }
    assert(outputs_view(outputs@).take(outputs.len() as int) =~= outputs_view(outputs@));
    listing(timestamp, "outputs", items)
}

pub open spec fn output_row(o: OutputV) -> Seq<Seq<char>> {
    seq![
        o.name,
        yes_no(o.connected),
        yes_no(o.primary),
        match o.resolution {
            Some(r) => r,
            None => "-"@,
        },
    ]
}

/// Build the human-readable table via the shared renderer.
pub fn to_table(outputs: &[Output]) -> (r: String)
    ensures
        r@ == table(
            seq!["Output"@, "Connected"@, "Primary"@, "Resolution"@],
            outputs_view(outputs@).map_values(|o: OutputV| output_row(o)),
            seq![Align::Left, Align::Left, Align::Left, Align::Left],
        ),
{
    let mut rows: Vec<Vec<String>> = Vec::new();
    let mut i: usize = 0;
    while i < outputs.len()
        invariant
            i <= outputs.len(),
            rows_view(rows@) == outputs_view(outputs@).take(i as int).map_values(|o: OutputV| output_row(o)),
        decreases outputs.len() - i,
    {
        let o = &outputs[i];
        let resolution = match &o.resolution {
            Some(r) => r.clone(),
            None => string_of("-"),
        };
        let row = vec![o.name.clone(), yes_no_exec(o.connected), yes_no_exec(o.primary), resolution];
        assert(cells_view(row) =~= output_row(outputs@[i as int]@));
        let ghost before = rows@;
        rows.push(row);
        assert(rows_view(rows@) =~= rows_view(before).push(output_row(outputs@[i as int]@)));
        assert(outputs_view(outputs@).take(i + 1).map_values(|o: OutputV| output_row(o)) =~= outputs_view(outputs@).take(i as int).map_values(|o: OutputV| output_row(o)).push(output_row(outputs@[i as int]@)));
        i = i + 1;
    }
    assert(outputs_view(outputs@).take(outputs.len() as int) =~= outputs_view(outputs@));
    let headers = ["Output", "Connected", "Primary", "Resolution"];
    let align = [Align::Left, Align::Left, Align::Left, Align::Left];
    assert(headers_view(headers@) =~= seq!["Output"@, "Connected"@, "Primary"@, "Resolution"@]);
    assert(align@ =~= seq![Align::Left, Align::Left, Align::Left, Align::Left]);
    render(&headers, &rows, &align)
}

} // verus!
