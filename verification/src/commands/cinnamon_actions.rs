//! `get-cinnamon-actions`: installed Nemo file-manager actions, the
//! `*.nemo_action` files of the system and per-user action directories.
use vstd::prelude::*;
use crate::commands::common::{stable_order, stable_sort_order};
use crate::commands::cinnamon_desktop::opt_string_view;
use crate::json::{jopt_str, jstr, jv, jv_entries, jv_items, listing, listing_jv, opt_str_jv, push_item, push_member, Json, JsonV};
use crate::table::{cells_view, headers_view, render, rows_view, table, Align};
use crate::text::{chars_of, chars_of_string, eq_str, lines, lines_exec, slice, strip_prefix, strip_prefix_exec, to_string, trim, trim_exec, views};

verus! {

/// One discovered Nemo action.
pub struct Action {
    /// File name (e.g. "open-terminal.nemo_action").
    pub file: String,
    /// Absolute path to the file.
    pub path: String,
    /// Display name from the `Name=` line, if present.
    pub name: Option<String>,
}

pub struct ActionV {
    pub file: Seq<char>,
    pub path: Seq<char>,
    pub name: Option<Seq<char>>,
}

impl View for Action {
    type V = ActionV;

    open spec fn view(&self) -> ActionV {
        ActionV { file: self.file@, path: self.path@, name: opt_string_view(self.name) }
    }
}

pub open spec fn actions_view(v: Seq<Action>) -> Seq<ActionV> {
    v.map_values(|a: Action| a@)
}

/// The display name among `ls`: the trimmed value of the first line that
/// starts with `Name=` and has a non-empty value. Localised variants such as
/// `Name[de]=` do not start with `Name=` and are passed over.
pub open spec fn name_in_lines(ls: Seq<Seq<char>>) -> Option<Seq<char>>
    decreases ls.len(),
{
    if ls.len() == 0 {
        None
    } else {
        match strip_prefix(ls[0], "Name="@) {
            Some(rest) if trim(rest).len() > 0 => Some(trim(rest)),
            _ => name_in_lines(ls.drop_first()),
        }
    }
}

/// The unlocalised display name of a `.nemo_action` file's text.
pub open spec fn action_name_of(text: Seq<char>) -> Option<Seq<char>> {
    name_in_lines(lines(text))
}

/// Read the unlocalised `Name=` value of a `.nemo_action` file's text.
pub fn action_name(text: &str) -> (r: Option<String>)
    ensures
        opt_string_view(r) == action_name_of(text@),
{
    let ls = lines_exec(&chars_of(text));
    let ghost lv = views(ls@);
    let mut i: usize = 0;
    assert(lv.skip(0) =~= lv);
    while i < ls.len()
        invariant
            i <= ls.len(),
            lv == views(ls@),
            lv == lines(text@),
            name_in_lines(lv.skip(i as int)) == name_in_lines(lv),
        decreases ls.len() - i,
    {
        assert(lv.skip(i as int)[0] == ls@[i as int]@);
        assert(lv.skip(i as int).drop_first() =~= lv.skip(i + 1));
        match strip_prefix_exec(&ls[i], "Name=") {
            Some(rest) => {
                let v = trim_exec(&rest);
                if v.len() > 0 {
                    return Some(to_string(&v));
                }
            },
            None => {},
        }
        i = i + 1;
    }
    assert(lv.skip(i as int).len() == 0);
    None
}

/// Position of the last `c` in `s`.
pub open spec fn last_index(s: Seq<char>, c: char) -> Option<int>
    decreases s.len(),
{
    if s.len() == 0 {
        None
    } else if s.last() == c {
        Some(s.len() - 1)
    } else {
        last_index(s.drop_last(), c)
    }
}

/// `Path::extension` of a file name: the text after the last `.`, unless
/// there is no `.` or the only one starts the name (a hidden file).
pub open spec fn extension_of(file_name: Seq<char>) -> Option<Seq<char>> {
    match last_index(file_name, '.') {
        Some(i) if i > 0 => Some(file_name.skip(i + 1)),
        _ => None,
    }
}

/// Whether a directory entry is a Nemo action: its extension is
/// `nemo_action`.
pub fn is_nemo_action(file_name: &str) -> (r: bool)
    ensures
        r == (extension_of(file_name@) == Some("nemo_action"@)),
{
    let s = chars_of(file_name);
    let mut i: usize = s.len();
    assert(s@.take(i as int) =~= s@);
    while i > 0 && s[i - 1] != '.'
        invariant
            i <= s.len(),
            last_index(s@, '.') == last_index(s@.take(i as int), '.'),
        decreases i,
    {
        assert(s@.take(i as int).drop_last() =~= s@.take(i - 1));
        i = i - 1;
    }
    if i <= 1 {
        if i == 1 {
            assert(s@.take(1).last() == '.');
        } else {
            assert(s@.take(0).len() == 0);
        }
        return false;
    }
    assert(s@.take(i as int).last() == '.');
    let ext = slice(&s, i, s.len());
    assert(ext@ =~= s@.skip(i as int));
    eq_str(&ext, "nemo_action")
}

fn copy_action(a: &Action) -> (r: Action)
    ensures
        r@ == a@,
{
    Action {
        file: a.file.clone(),
        path: a.path.clone(),
        name: match &a.name {
            Some(n) => Some(n.clone()),
            None => None,
        },
    }
}

pub open spec fn action_files(v: Seq<ActionV>) -> Seq<Seq<char>> {
    v.map_values(|a: ActionV| a.file)
}

/// The actions sorted by file name; equal file names keep their relative
/// order (a stable sort).
pub fn sort_by_file(actions: &Vec<Action>) -> (r: Vec<Action>)
    ensures
        exists|order: Seq<int>|
            #![trigger stable_order(action_files(actions_view(actions@)), order)]
            stable_order(action_files(actions_view(actions@)), order) && actions_view(r@)
                == order.map_values(|k: int| actions_view(actions@)[k]),
{
    let ghost av = actions_view(actions@);
    let mut keys: Vec<Vec<char>> = Vec::new();
    let mut i: usize = 0;
    while i < actions.len()
        invariant
            i <= actions.len(),
            av == actions_view(actions@),
            views(keys@) == action_files(av).take(i as int),
        decreases actions.len() - i,
    {
        let ghost before = keys@;
        keys.push(chars_of_string(&actions[i].file));
        assert(views(keys@) =~= views(before).push(av[i as int].file));
        assert(action_files(av).take(i + 1) =~= action_files(av).take(i as int).push(av[i as int].file));
        i = i + 1;
    }
    assert(action_files(av).take(actions.len() as int) =~= action_files(av));
    let order = stable_sort_order(&keys);
    let ghost ord = order@.map_values(|k: usize| k as int);
    let mut out: Vec<Action> = Vec::new();
    let mut j: usize = 0;
    while j < order.len()
        invariant
            j <= order.len(),
            av == actions_view(actions@),
            ord == order@.map_values(|k: usize| k as int),
            stable_order(action_files(av), ord),
            actions_view(out@) == ord.take(j as int).map_values(|k: int| av[k]),
        decreases order.len() - j,
    {
        let k = order[j];
        assert(ord[j as int] == k as int);
        let a = copy_action(&actions[k]);
        let ghost before = out@;
        out.push(a);
        assert(actions_view(out@) =~= actions_view(before).push(av[k as int]));
        assert(ord.take(j + 1).map_values(|k: int| av[k]) =~= ord.take(j as int).map_values(|k: int| av[k]).push(av[k as int]));
        j = j + 1;
    }
    assert(ord.take(order.len() as int) =~= ord);
    out
}

pub open spec fn name_jv(n: Option<Seq<char>>) -> JsonV {
    match n {
        Some(s) => JsonV::Str(s),
        None => JsonV::Null,
    }
}

pub open spec fn action_jv(a: ActionV) -> JsonV {
    JsonV::Object(seq![("file"@, JsonV::Str(a.file)), ("path"@, JsonV::Str(a.path)), ("name"@, name_jv(a.name))])
}

fn action_json(a: &Action) -> (r: Json)
    ensures
        jv(r) == action_jv(a@),
{
    let mut e: Vec<(String, Json)> = Vec::new();
    push_member(&mut e, "file", jstr(&a.file));
    push_member(&mut e, "path", jstr(&a.path));
    push_member(&mut e, "name", jopt_str(&a.name));
    assert(opt_str_jv(a.name) == name_jv(a@.name));
    assert(jv_entries(e@) =~= seq![
        ("file"@, JsonV::Str(a.file@)),
        ("path"@, JsonV::Str(a.path@)),
        ("name"@, name_jv(a@.name)),
    ]);
    Json::Object(e)
}

/// Build the structured JSON value: `{ timestamp, actions: [...] }`.
pub fn to_json(actions: &[Action], timestamp: &String) -> (r: Json)
    ensures
        jv(r) == listing_jv(timestamp@, "actions"@, actions_view(actions@).map_values(|a: ActionV| action_jv(a))),
{
    let mut items: Vec<Json> = Vec::new();
    let mut i: usize = 0;
    while i < actions.len()
        invariant
            i <= actions.len(),
            jv_items(items@) == actions_view(actions@).take(i as int).map_values(|a: ActionV| action_jv(a)),
        decreases actions.len() - i,
    {
        push_item(&mut items, action_json(&actions[i]));
        assert(actions_view(actions@).take(i + 1).map_values(|a: ActionV| action_jv(a)) =~= actions_view(actions@).take(i as int).map_values(|a: ActionV| action_jv(a)).push(action_jv(actions@[i as int]@)));
        i = i + 1;
    }
    assert(actions_view(actions@).take(actions.len() as int) =~= actions_view(actions@));
    listing(timestamp, "actions", items)
}

pub open spec fn action_row(a: ActionV) -> Seq<Seq<char>> {
    seq![
        match a.name {
            Some(n) => n,
            None => seq![],
        },
        a.file,
        a.path,
    ]
}

/// Build the human-readable table.
pub fn to_table(actions: &[Action]) -> (r: String)
    ensures
        r@ == table(
            seq!["Name"@, "File"@, "Path"@],
            actions_view(actions@).map_values(|a: ActionV| action_row(a)),
            seq![Align::Left, Align::Left, Align::Left],
        ),
{
    let mut rows: Vec<Vec<String>> = Vec::new();
    let mut i: usize = 0;
    while i < actions.len()
        invariant
            i <= actions.len(),
            rows_view(rows@) == actions_view(actions@).take(i as int).map_values(|a: ActionV| action_row(a)),
        decreases actions.len() - i,
    {
        let a = &actions[i];
        let name = match &a.name {
            Some(n) => n.clone(),
            None => String::new(),
        };
        let row = vec![name, a.file.clone(), a.path.clone()];
        assert(cells_view(row) =~= action_row(actions@[i as int]@));
        let ghost before = rows@;
        rows.push(row);
        assert(rows_view(rows@) =~= rows_view(before).push(action_row(actions@[i as int]@)));
        assert(actions_view(actions@).take(i + 1).map_values(|a: ActionV| action_row(a)) =~= actions_view(actions@).take(i as int).map_values(|a: ActionV| action_row(a)).push(action_row(actions@[i as int]@)));
        i = i + 1;
    }
    assert(actions_view(actions@).take(actions.len() as int) =~= actions_view(actions@));
    let headers = ["Name", "File", "Path"];
    let align = [Align::Left, Align::Left, Align::Left];
    assert(headers_view(headers@) =~= seq!["Name"@, "File"@, "Path"@]);
    assert(align@ =~= seq![Align::Left, Align::Left, Align::Left]);
    render(&headers, &rows, &align)
}

} // verus!
