//! `get-bluetooth`: Bluetooth controllers and their rfkill block state,
//! from `bluetoothctl list` (controllers) and `rfkill list bluetooth`
//! (soft/hard block state), matched by position.
use vstd::prelude::*;
use crate::commands::common::{yes_no, yes_no_exec, yes_no_opt, yesno};
use crate::json::{jopt_bool, jstr, jv, jv_entries, jv_items, listing, listing_jv, opt_bool_jv, push_item, push_member, Json, JsonV};
use crate::table::{cells_view, headers_view, render, rows_view, table, Align};
use crate::text::{
    all_digits, chars_of, eq_str, is_digit_exec, join, join_exec, lemma_filter_map_step, lines,
    lines_exec, split_once, split_once_exec, strip_prefix, strip_prefix_exec, to_string, trim,
    trim_exec, views, words, words_exec,
};

verus! {

/// One Bluetooth controller.
pub struct Controller {
    pub address: String,
    pub name: String,
    pub default: bool,
    /// rfkill soft-block state, if a matching rfkill entry was found.
    pub soft_blocked: Option<bool>,
    /// rfkill hard-block state, if a matching rfkill entry was found.
    pub hard_blocked: Option<bool>,
}

pub struct ControllerV {
    pub address: Seq<char>,
    pub name: Seq<char>,
    pub default: bool,
    pub soft_blocked: Option<bool>,
    pub hard_blocked: Option<bool>,
}

impl View for Controller {
    type V = ControllerV;

    open spec fn view(&self) -> ControllerV {
        ControllerV {
            address: self.address@,
            name: self.name@,
            default: self.default,
            soft_blocked: self.soft_blocked,
            hard_blocked: self.hard_blocked,
        }
    }
}

pub open spec fn controllers_view(v: Seq<Controller>) -> Seq<ControllerV> {
    v.map_values(|c: Controller| c@)
}

/// A `bluetoothctl list` line `Controller AA:BB:CC:DD:EE:FF myhost [default]`
/// (leading and trailing whitespace ignored): the address (first token after
/// `Controller `), the name (the other tokens except `[default]`, joined by
/// spaces) and whether `[default]` is among them. Other lines, and lines
/// without an address, hold no controller.
pub open spec fn controller_line(line: Seq<char>) -> Option<(Seq<char>, Seq<char>, bool)> {
    match strip_prefix(trim(line), "Controller "@) {
        Some(rest) => {
            let parts = words(rest);
            if parts.len() == 0 {
                None
            } else {
                let others = parts.skip(1);
                Some(
                    (
                        parts[0],
                        join(others.filter(|t: Seq<char>| t != "[default]"@), seq![' ']),
                        others.contains("[default]"@),
                    ),
                )
            }
        },
        None => None,
    }
}

pub open spec fn controller_parser() -> spec_fn(Seq<char>) -> Option<(Seq<char>, Seq<char>, bool)> {
    |l: Seq<char>| controller_line(l)
}

/// The controllers listed by `bluetoothctl list`, in order.
pub open spec fn controllers_of(text: Seq<char>) -> Seq<(Seq<char>, Seq<char>, bool)> {
    lines(text).filter_map(controller_parser())
}

pub open spec fn triple_view(t: (String, String, bool)) -> (Seq<char>, Seq<char>, bool) {
    (t.0@, t.1@, t.2)
}

fn parse_controller_line(line: &Vec<char>) -> (r: Option<(String, String, bool)>)
    ensures
        match controller_line(line@) {
            Some(c) => r is Some && triple_view(r->0) == c,
            None => r is None,
        },
{
    let t = trim_exec(line);
    let rest = match strip_prefix_exec(&t, "Controller ") {
        Some(r) => r,
        None => {
            return None;
        },
    };
    let parts = words_exec(&rest);
    if parts.len() == 0 {
        return None;
    }
    let ghost pv = views(parts@);
    let ghost others = pv.skip(1);
    let ghost keep = |t: Seq<char>| t != "[default]"@;
    let mut names: Vec<Vec<char>> = Vec::new();
    let mut default = false;
    let mut i: usize = 1;
    while i < parts.len()
        invariant
            1 <= i <= parts.len(),
            pv == views(parts@),
            others == pv.skip(1),
            keep == (|t: Seq<char>| t != "[default]"@),
            views(names@) == others.take(i - 1).filter(keep),
            default == others.take(i - 1).contains("[default]"@),
        decreases parts.len() - i,
    {
        assert(others[i - 1] == parts@[i as int]@);
        proof {
            reveal(Seq::filter);
            assert(others.take(i as int).drop_last() =~= others.take(i - 1));
        }
        let is_default = eq_str(&parts[i], "[default]");
        let ghost before = names@;
        if is_default {
            default = true;
        } else {
            names.push(crate::text::slice(&parts[i], 0, parts[i].len()));
            assert(parts@[i as int]@.subrange(0, parts@[i as int]@.len() as int) =~= parts@[i as int]@);
            assert(views(names@) =~= views(before).push(parts@[i as int]@));
        }
        proof {
            let prev = others.take(i - 1);
            let cur = others.take(i as int);
            assert(cur =~= prev.push(others[i - 1]));
            if is_default {
                assert(cur[i - 1] == "[default]"@);
            } else if prev.contains("[default]"@) {
                let w = choose|w: int| 0 <= w < prev.len() && prev[w] == "[default]"@;
                assert(cur[w] == "[default]"@);
            } else {
                assert forall|w: int| 0 <= w < cur.len() implies cur[w] != "[default]"@ by {
                    if w < prev.len() {
                        assert(cur[w] == prev[w]);
                    }
                }
            }
        }
        i = i + 1;
    }
    assert(others.take(parts.len() - 1) =~= others);
    assert(pv[0] == parts@[0]@);
    let sep = [' '];
    assert(sep@ =~= seq![' ']);
    Some((to_string(&parts[0]), to_string(&join_exec(&names, &sep)), default))
}

/// Parse `bluetoothctl list`, whose lines look like
/// `Controller AA:BB:CC:DD:EE:FF myhost [default]`.
pub fn parse_controllers(text: &str) -> (r: Vec<(String, String, bool)>)
    ensures
        r@.map_values(|t: (String, String, bool)| triple_view(t)) == controllers_of(text@),
{
    let t = chars_of(text);
    let ls = lines_exec(&t);
    let ghost lv = views(ls@);
    let mut out: Vec<(String, String, bool)> = Vec::new();
    let mut i: usize = 0;
    while i < ls.len()
        invariant
            i <= ls.len(),
            lv == views(ls@),
            lv == lines(text@),
            out@.map_values(|t: (String, String, bool)| triple_view(t)) == lv.take(i as int).filter_map(controller_parser()),
        decreases ls.len() - i,
    {
        proof {
            lemma_filter_map_step(lv, controller_parser(), i as int);
        }
        assert(lv[i as int] == ls@[i as int]@);
        let ghost before = out@;
        match parse_controller_line(&ls[i]) {
            Some(c) => {
                out.push(c);
                assert(out@.map_values(|t: (String, String, bool)| triple_view(t)) =~= before.map_values(|t: (String, String, bool)| triple_view(t)).push(triple_view(c)));
            },
            None => {},
        }
        i = i + 1;
    }
    assert(lv.take(ls.len() as int) =~= lv);
    out
}

/// Whether a trimmed rfkill line is a device header such as
/// `0: hci0: Bluetooth`: the text before its first colon is a non-empty run
/// of ASCII digits.
pub open spec fn rfkill_header(t: Seq<char>) -> bool {
    match split_once(t, ':') {
        Some((idx, _)) => idx.len() > 0 && all_digits(idx),
        None => false,
    }
}

/// The (soft, hard) block states after one more line of `rfkill list`:
/// a header line opens a new device (both unblocked until stated); a
/// `Soft blocked:` / `Hard blocked:` line sets the state of the latest
/// device to whether the value is `yes`.
pub open spec fn rfkill_step(states: Seq<(bool, bool)>, line: Seq<char>) -> Seq<(bool, bool)> {
    let t = trim(line);
    match strip_prefix(t, "Soft blocked:"@) {
        Some(rest) => if states.len() > 0 {
            states.update(states.len() - 1, (trim(rest) == "yes"@, states.last().1))
        } else {
            states
        },
        None => match strip_prefix(t, "Hard blocked:"@) {
            Some(rest) => if states.len() > 0 {
                states.update(states.len() - 1, (states.last().0, trim(rest) == "yes"@))
            } else {
                states
            },
            None => if rfkill_header(t) {
                states.push((false, false))
            } else {
                states
            },
        },
    }
}

/// The block states of `rfkill list bluetooth` output, one per device.
pub open spec fn rfkill_states(ls: Seq<Seq<char>>) -> Seq<(bool, bool)>
    decreases ls.len(),
{
    if ls.len() == 0 {
        seq![]
    } else {
        rfkill_step(rfkill_states(ls.drop_last()), ls.last())
    }
}

fn is_rfkill_header(t: &Vec<char>) -> (r: bool)
    ensures
        r == rfkill_header(t@),
{
    match split_once_exec(t, ':') {
        Some((idx, _rest)) => {
            assert(split_once(t@, ':') is Some);
            assert((split_once(t@, ':')->0).0 == idx@);
            assert(rfkill_header(t@) == (idx@.len() > 0 && all_digits(idx@)));
            if idx.len() == 0 {
                return false;
            }
            let mut k: usize = 0;
            while k < idx.len()
                invariant
                    k <= idx.len(),
                    rfkill_header(t@) == (idx@.len() > 0 && all_digits(idx@)),
                    idx@.len() > 0,
                    forall|j: int| 0 <= j < k ==> crate::text::is_digit(#[trigger] idx@[j]),
                decreases idx.len() - k,
            {
                if !is_digit_exec(idx[k]) {
                    assert(!crate::text::is_digit(idx@[k as int]));
                    assert(!all_digits(idx@));
                    return false;
                }
                k = k + 1;
            }
            true
        },
        None => false,
    }
}

/// Parse `rfkill list bluetooth` into ordered (soft, hard) block states.
/// Each device block starts with a header line like `0: hci0: Bluetooth`.
pub fn parse_rfkill(text: &str) -> (r: Vec<(bool, bool)>)
    ensures
        r@ == rfkill_states(lines(text@)),
{
    let t = chars_of(text);
    let ls = lines_exec(&t);
    let ghost lv = views(ls@);
    let mut states: Vec<(bool, bool)> = Vec::new();
    let mut i: usize = 0;
    while i < ls.len()
        invariant
            i <= ls.len(),
            lv == views(ls@),
            lv == lines(text@),
            states@ == rfkill_states(lv.take(i as int)),
        decreases ls.len() - i,
    {
        assert(lv.take(i + 1).drop_last() =~= lv.take(i as int));
        assert(lv[i as int] == ls@[i as int]@);
        let line = trim_exec(&ls[i]);
        let n = states.len();
        match strip_prefix_exec(&line, "Soft blocked:") {
            Some(rest) => {
                if n > 0 {
                    let yes = eq_str(&trim_exec(&rest), "yes");
                    let hard = states[n - 1].1;
                    states.set(n - 1, (yes, hard));
                }
            },
            None => match strip_prefix_exec(&line, "Hard blocked:") {
                Some(rest) => {
                    if n > 0 {
                        let yes = eq_str(&trim_exec(&rest), "yes");
                        let soft = states[n - 1].0;
                        states.set(n - 1, (soft, yes));
                    }
                },
                None => {
                    if is_rfkill_header(&line) {
                        states.push((false, false));
                    }
                },
            },
        }
        i = i + 1;
    }
    assert(lv.take(ls.len() as int) =~= lv);
    states
}

/// The controllers, annotated with the block state at the same position (if
/// any).
pub open spec fn annotated(listed: Seq<(Seq<char>, Seq<char>, bool)>, rfkill: Seq<(bool, bool)>) -> Seq<ControllerV> {
    Seq::new(
        listed.len(),
        |i: int|
            ControllerV {
                address: listed[i].0,
                name: listed[i].1,
                default: listed[i].2,
                soft_blocked: if i < rfkill.len() {
                    Some(rfkill[i].0)
                } else {
                    None
                },
                hard_blocked: if i < rfkill.len() {
                    Some(rfkill[i].1)
                } else {
                    None
                },
            },
    )
}

/// Annotate listed controllers with block state by position.
pub fn annotate(listed: Vec<(String, String, bool)>, rfkill: &Vec<(bool, bool)>) -> (r: Vec<Controller>)
    ensures
        controllers_view(r@) == annotated(listed@.map_values(|t: (String, String, bool)| triple_view(t)), rfkill@),
{
    let ghost lv = listed@.map_values(|t: (String, String, bool)| triple_view(t));
    let mut out: Vec<Controller> = Vec::new();
    let mut i: usize = 0;
    while i < listed.len()
        invariant
            i <= listed.len(),
            lv == listed@.map_values(|t: (String, String, bool)| triple_view(t)),
            controllers_view(out@) == annotated(lv, rfkill@).take(i as int),
        decreases listed.len() - i,
    {
        let (soft, hard) = if i < rfkill.len() {
            (Some(rfkill[i].0), Some(rfkill[i].1))
        } else {
            (None, None)
        };
        let c = Controller {
            address: listed[i].0.clone(),
            name: listed[i].1.clone(),
            default: listed[i].2,
            soft_blocked: soft,
            hard_blocked: hard,
        };
        assert(c@ == annotated(lv, rfkill@)[i as int]);
        let ghost before = out@;
        out.push(c);
        assert(controllers_view(out@) =~= controllers_view(before).push(c@));
        assert(annotated(lv, rfkill@).take(i + 1) =~= annotated(lv, rfkill@).take(i as int).push(c@));
        i = i + 1;
    }
    assert(annotated(lv, rfkill@).take(listed.len() as int) =~= annotated(lv, rfkill@));
    out
}

pub open spec fn controller_jv(c: ControllerV) -> JsonV {
    JsonV::Object(
        seq![
            ("address"@, JsonV::Str(c.address)),
            ("name"@, JsonV::Str(c.name)),
            ("default"@, JsonV::Bool(c.default)),
            ("soft_blocked"@, opt_bool_jv(c.soft_blocked)),
            ("hard_blocked"@, opt_bool_jv(c.hard_blocked)),
        ],
    )
}

/// Build the structured JSON value: `{ timestamp, controllers: [...] }`.
pub fn to_json(controllers: &[Controller], timestamp: &String) -> (r: Json)
    ensures
        jv(r) == listing_jv(timestamp@, "controllers"@, controllers_view(controllers@).map_values(|c: ControllerV| controller_jv(c))),
{
    let mut items: Vec<Json> = Vec::new();
    let mut i: usize = 0;
    while i < controllers.len()
        invariant
            i <= controllers.len(),
            jv_items(items@) == controllers_view(controllers@).take(i as int).map_values(|c: ControllerV| controller_jv(c)),
        decreases controllers.len() - i,
    {
        let c = &controllers[i];
        let mut e: Vec<(String, Json)> = Vec::new();
        push_member(&mut e, "address", jstr(&c.address));
        push_member(&mut e, "name", jstr(&c.name));
        push_member(&mut e, "default", Json::Bool(c.default));
        push_member(&mut e, "soft_blocked", jopt_bool(c.soft_blocked));
        push_member(&mut e, "hard_blocked", jopt_bool(c.hard_blocked));
        assert(jv_entries(e@) =~= seq![
            ("address"@, JsonV::Str(c.address@)),
            ("name"@, JsonV::Str(c.name@)),
            ("default"@, JsonV::Bool(c.default)),
            ("soft_blocked"@, opt_bool_jv(c.soft_blocked)),
            ("hard_blocked"@, opt_bool_jv(c.hard_blocked)),
        ]);
        push_item(&mut items, Json::Object(e));
        assert(controllers_view(controllers@).take(i + 1).map_values(|c: ControllerV| controller_jv(c)) =~= controllers_view(controllers@).take(i as int).map_values(|c: ControllerV| controller_jv(c)).push(controller_jv(controllers@[i as int]@)));
        i = i + 1;
    }
    assert(controllers_view(controllers@).take(controllers.len() as int) =~= controllers_view(controllers@));
    listing(timestamp, "controllers", items)
}

pub open spec fn controller_row(c: ControllerV) -> Seq<Seq<char>> {
    seq![c.address, c.name, yes_no(c.default), yes_no_opt(c.soft_blocked), yes_no_opt(c.hard_blocked)]
}

/// Build the human-readable table.
pub fn to_table(controllers: &[Controller]) -> (r: String)
    ensures
        r@ == table(
            seq!["Address"@, "Name"@, "Default"@, "Soft Blocked"@, "Hard Blocked"@],
            controllers_view(controllers@).map_values(|c: ControllerV| controller_row(c)),
            seq![Align::Left, Align::Left, Align::Left, Align::Left, Align::Left],
        ),
{
    let mut rows: Vec<Vec<String>> = Vec::new();
    let mut i: usize = 0;
    while i < controllers.len()
        invariant
            i <= controllers.len(),
            rows_view(rows@) == controllers_view(controllers@).take(i as int).map_values(|c: ControllerV| controller_row(c)),
        decreases controllers.len() - i,
    {
        let c = &controllers[i];
        let row = vec![c.address.clone(), c.name.clone(), yes_no_exec(c.default), yesno(c.soft_blocked), yesno(c.hard_blocked)];
        assert(cells_view(row) =~= controller_row(c@));
        let ghost before = rows@;
        rows.push(row);
        assert(rows_view(rows@) =~= rows_view(before).push(controller_row(c@)));
        assert(controllers_view(controllers@).take(i + 1).map_values(|c: ControllerV| controller_row(c)) =~= controllers_view(controllers@).take(i as int).map_values(|c: ControllerV| controller_row(c)).push(controller_row(controllers@[i as int]@)));
        i = i + 1;
    }
    assert(controllers_view(controllers@).take(controllers.len() as int) =~= controllers_view(controllers@));
    let headers = ["Address", "Name", "Default", "Soft Blocked", "Hard Blocked"];
    let align = [Align::Left, Align::Left, Align::Left, Align::Left, Align::Left];
    assert(headers_view(headers@) =~= seq!["Address"@, "Name"@, "Default"@, "Soft Blocked"@, "Hard Blocked"@]);
    assert(align@ =~= seq![Align::Left, Align::Left, Align::Left, Align::Left, Align::Left]);
    render(&headers, &rows, &align)
}

} // verus!
