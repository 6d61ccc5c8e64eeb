//! The pretty and compact serialisations differ only in layout: removing
//! the spaces and line feeds that stand outside string literals from the
//! pretty text gives the compact text.
use vstd::prelude::*;
use crate::json::{
    compact, compact_entries, compact_items, escape_body, escape_char, hex_digit, indent, lemma_escape_body_append,
    pretty, pretty_entries, pretty_items, quoted, scalar_text, Json,
};
use crate::text::{dec, join};

verus! {

/// The characters of `s` that are kept when every space and line feed that
/// stands outside a string literal is removed, reading from a state that
/// says whether a string literal is open (`in_str`) and whether its last
/// character was an escaping backslash (`esc`).
pub open spec fn strip_layout(s: Seq<char>, in_str: bool, esc: bool) -> Seq<char>
    decreases s.len(),
{
    if s.len() == 0 {
        seq![]
    } else {
        let c = s[0];
        let rest = s.drop_first();
        if in_str {
            if esc {
                seq![c] + strip_layout(rest, true, false)
            } else if c == '\\' {
                seq![c] + strip_layout(rest, true, true)
            } else if c == '"' {
                seq![c] + strip_layout(rest, false, false)
            } else {
                seq![c] + strip_layout(rest, true, false)
            }
        } else if c == ' ' || c == '\n' {
            strip_layout(rest, false, false)
        } else if c == '"' {
            seq![c] + strip_layout(rest, true, false)
        } else {
            seq![c] + strip_layout(rest, false, false)
        }
    }
}

/// `s` read outside any string literal: its spaces and line feeds.
pub open spec fn layout_free(s: Seq<char>) -> Seq<char>
    decreases s.len(),
{
    if s.len() == 0 {
        seq![]
    } else if s[0] == ' ' || s[0] == '\n' {
        layout_free(s.drop_first())
    } else {
        seq![s[0]] + layout_free(s.drop_first())
    }
}

/// Every pre-rendered number (`F64` text) in `j` holds no space, line feed
/// or double quote.
pub open spec fn floats_plain(j: Json) -> bool
    decreases j, 1nat,
{
    match j {
        Json::F64(t) => forall|i: int| 0 <= i < t@.len() ==> #[trigger] t@[i] != ' ' && t@[i] != '\n' && t@[i] != '"',
        Json::Array(items) => items_plain(items@),
        Json::Object(entries) => entries_plain(entries@),
        _ => true,
    }
}

pub open spec fn items_plain(items: Seq<Json>) -> bool
    decreases items, 0nat,
{
    if items.len() == 0 {
        true
    } else {
        items_plain(items.drop_last()) && floats_plain(items.last())
    }
}

pub open spec fn entries_plain(entries: Seq<(String, Json)>) -> bool
    decreases entries, 0nat,
{
    if entries.len() == 0 {
        true
    } else {
        entries_plain(entries.drop_last()) && floats_plain(entries.last().1)
    }
}

/// Text without a double quote, read outside string literals, loses its
/// spaces and line feeds and leaves the reading outside.
proof fn lemma_strip_plain(p: Seq<char>, t: Seq<char>)
    requires
        forall|i: int| 0 <= i < p.len() ==> #[trigger] p[i] != '"',
    ensures
        strip_layout(p + t, false, false) == layout_free(p) + strip_layout(t, false, false),
    decreases p.len(),
{
    if p.len() == 0 {
        assert(p + t =~= t);
        assert(layout_free(p) + strip_layout(t, false, false) =~= strip_layout(t, false, false));
    } else {
        let r = p.drop_first();
        assert forall|i: int| 0 <= i < r.len() implies #[trigger] r[i] != '"' by {
            assert(r[i] == p[i + 1]);
        }
        lemma_strip_plain(r, t);
        assert((p + t).drop_first() =~= r + t);
        assert((p + t)[0] == p[0]);
        assert(p[0] != '"');
        if p[0] == ' ' || p[0] == '\n' {
        } else {
            assert(seq![p[0]] + (layout_free(r) + strip_layout(t, false, false)) =~= (seq![p[0]] + layout_free(r))
                + strip_layout(t, false, false));
        }
    }
}

proof fn lemma_layout_free_none(p: Seq<char>)
    requires
        forall|i: int| 0 <= i < p.len() ==> #[trigger] p[i] != ' ' && p[i] != '\n',
    ensures
        layout_free(p) == p,
    decreases p.len(),
{
    if p.len() > 0 {
        let r = p.drop_first();
        assert forall|i: int| 0 <= i < r.len() implies #[trigger] r[i] != ' ' && r[i] != '\n' by {
            assert(r[i] == p[i + 1]);
        }
        lemma_layout_free_none(r);
        assert(p[0] != ' ' && p[0] != '\n');
        assert(p =~= seq![p[0]] + r);
    }
}

proof fn lemma_layout_free_spaces(n: nat)
    ensures
        layout_free(indent(n)) == Seq::<char>::empty(),
    decreases n,
{
    if n > 0 {
        lemma_layout_free_spaces((n - 1) as nat);
        assert(indent(n).drop_first().drop_first() =~= indent((n - 1) as nat));
        assert(indent(n)[0] == ' ' && indent(n).drop_first()[0] == ' ');
        assert(layout_free(indent(n)) == layout_free(indent(n).drop_first()));
        assert(layout_free(indent(n).drop_first()) == layout_free(indent(n).drop_first().drop_first()));
    } else {
        assert(indent(0) =~= Seq::<char>::empty());
    }
}

/// Inside a string literal, an escaped character is read through unchanged.
proof fn lemma_strip_escape_char(c: char, t: Seq<char>)
    ensures
        strip_layout(escape_char(c) + t, true, false) == escape_char(c) + strip_layout(t, true, false),
{
    let e = escape_char(c);
    let u = e + t;
    reveal_with_fuel(strip_layout, 7);
    if c == '"' || c == '\\' || c == '\n' || c == '\r' || c == '\t' {
        assert(u[0] == '\\' && u[1] == e[1]);
        assert(u.drop_first().drop_first() =~= t);
        assert(strip_layout(u, true, false) =~= e + strip_layout(t, true, false));
    } else if (c as u32) < 0x20 {
        let hi = ((c as u32) / 16) as nat;
        let lo = ((c as u32) % 16) as nat;
        assert(hi < 2);
        assert(hex_digit(hi) != '"' && hex_digit(hi) != '\\');
        assert(hex_digit(lo) != '"' && hex_digit(lo) != '\\');
        assert(hex_digit(0) == '0');
        assert(u[0] == '\\' && u[1] == 'u' && u[2] == '0' && u[3] == '0' && u[4] == hex_digit(hi) && u[5] == hex_digit(lo));
        assert(u.skip(6) =~= t);
        assert(u.drop_first() =~= u.skip(1));
        assert(u.skip(1).drop_first() =~= u.skip(2));
        assert(u.skip(2).drop_first() =~= u.skip(3));
        assert(u.skip(3).drop_first() =~= u.skip(4));
        assert(u.skip(4).drop_first() =~= u.skip(5));
        assert(u.skip(5).drop_first() =~= u.skip(6));
        assert(strip_layout(u, true, false) =~= e + strip_layout(t, true, false));
    } else {
        assert(u[0] == c);
        assert(u.drop_first() =~= t);
        assert(strip_layout(u, true, false) =~= e + strip_layout(t, true, false));
    }
}

proof fn lemma_strip_escape_body(s: Seq<char>, t: Seq<char>)
    ensures
        strip_layout(escape_body(s) + t, true, false) == escape_body(s) + strip_layout(t, true, false),
    decreases s.len(),
{
    if s.len() == 0 {
        assert(escape_body(s) + t =~= t);
        assert(escape_body(s) + strip_layout(t, true, false) =~= strip_layout(t, true, false));
    } else {
        let c = s[0];
        let r = s.drop_first();
        assert(s =~= seq![c] + r);
        lemma_escape_body_append(seq![c], r);
        assert(seq![c].drop_last() =~= Seq::<char>::empty());
        assert(seq![c].last() == c);
        assert(escape_body(Seq::<char>::empty()) =~= Seq::<char>::empty());
        assert(escape_body(seq![c]) =~= escape_char(c));
        lemma_strip_escape_body(r, t);
        lemma_strip_escape_char(c, escape_body(r) + t);
        assert(escape_body(s) + t =~= escape_char(c) + (escape_body(r) + t));
        assert(escape_body(s) + strip_layout(t, true, false) =~= escape_char(c) + (escape_body(r) + strip_layout(
            t,
            true,
            false,
        )));
    }
}

/// A quoted string is read through unchanged and leaves the reading
/// outside string literals.
proof fn lemma_strip_quoted(s: Seq<char>, t: Seq<char>)
    ensures
        strip_layout(quoted(s) + t, false, false) == quoted(s) + strip_layout(t, false, false),
{
    let q = quoted(s);
    let e = escape_body(s);
    assert(q + t =~= seq!['"'] + (e + (seq!['"'] + t)));
    assert((q + t)[0] == '"');
    assert((q + t).drop_first() =~= e + (seq!['"'] + t));
    lemma_strip_escape_body(s, seq!['"'] + t);
    assert((seq!['"'] + t)[0] == '"');
    assert((seq!['"'] + t).drop_first() =~= t);
    assert(strip_layout(seq!['"'] + t, true, false) == seq!['"'] + strip_layout(t, false, false));
    assert(quoted(s) + strip_layout(t, false, false) =~= seq!['"'] + (e + (seq!['"'] + strip_layout(t, false, false))));
}

proof fn lemma_dec_plain(n: nat)
    ensures
        forall|i: int| 0 <= i < dec(n).len() ==> #[trigger] dec(n)[i] != ' ' && dec(n)[i] != '\n' && dec(n)[i] != '"',
    decreases n,
{
    if n >= 10 {
        lemma_dec_plain(n / 10);
        let d = dec(n / 10).push(crate::text::digit_char(n % 10));
        assert forall|i: int| 0 <= i < d.len() implies #[trigger] d[i] != ' ' && d[i] != '\n' && d[i] != '"' by {
            if i < d.len() - 1 {
                assert(d[i] == dec(n / 10)[i]);
            }
        }
    }
}

proof fn lemma_strip_scalar(j: Json, t: Seq<char>)
    requires
        floats_plain(j),
        !(j is Array),
        !(j is Object),
    ensures
        strip_layout(scalar_text(j) + t, false, false) == scalar_text(j) + strip_layout(t, false, false),
{
    match j {
        Json::Str(s) => {
            lemma_strip_quoted(s@, t);
        },
        _ => {
            let p = scalar_text(j);
            match j {
                Json::U64(n) => {
                    lemma_dec_plain(n as nat);
                },
                Json::I64(n) => {
                    if n < 0 {
                        lemma_dec_plain((-n) as nat);
                        assert forall|i: int| 0 <= i < p.len() implies #[trigger] p[i] != ' ' && p[i] != '\n' && p[i]
                            != '"' by {
                            if i > 0 {
                                assert(p[i] == dec((-n) as nat)[i - 1]);
                            }
                        }
                    } else {
                        lemma_dec_plain(n as nat);
                    }
                },
                _ => {},
            }
            assert(forall|i: int| 0 <= i < p.len() ==> #[trigger] p[i] != ' ' && p[i] != '\n' && p[i] != '"');
            lemma_strip_plain(p, t);
            lemma_layout_free_none(p);
        },
    }
}

/// Joined parts that each strip to their compact form, followed by any
/// text: the separators `,` + line feed strip to `,`.
proof fn lemma_strip_join(parts: Seq<Seq<char>>, compacts: Seq<Seq<char>>, t: Seq<char>)
    requires
        parts.len() > 0,
        compacts.len() == parts.len(),
        forall|i: int, u: Seq<char>|
            0 <= i < parts.len() ==> #[trigger] strip_layout(parts[i] + u, false, false) == compacts[i]
                + strip_layout(u, false, false),
    ensures
        strip_layout(join(parts, seq![',', '\n']) + t, false, false) == join(compacts, seq![',']) + strip_layout(
            t,
            false,
            false,
        ),
    decreases parts.len(),
{
    let sep = seq![',', '\n'];
    if parts.len() == 1 {
        assert(strip_layout(parts[0] + t, false, false) == compacts[0] + strip_layout(t, false, false));
    } else {
        let init = parts.drop_last();
        let cinit = compacts.drop_last();
        assert forall|i: int, u: Seq<char>|
            0 <= i < init.len() implies #[trigger] strip_layout(init[i] + u, false, false) == cinit[i]
                + strip_layout(u, false, false) by {
            assert(init[i] == parts[i] && cinit[i] == compacts[i]);
            assert(strip_layout(parts[i] + u, false, false) == compacts[i] + strip_layout(u, false, false));
        }
        let last = parts[parts.len() - 1];
        let rest = sep + (last + t);
        lemma_strip_join(init, cinit, rest);
        lemma_strip_plain(sep, last + t);
        assert(strip_layout(last + t, false, false) == compacts[compacts.len() - 1] + strip_layout(t, false, false));
        assert(layout_free(sep) =~= seq![',']) by {
            reveal_with_fuel(layout_free, 3);
            assert(sep[0] == ',' && sep.drop_first()[0] == '\n');
            assert(sep.drop_first().drop_first() =~= Seq::<char>::empty());
        }
        assert(join(parts, sep) + t =~= join(init, sep) + rest);
        assert(parts.last() == last);
        assert(compacts.last() == compacts[compacts.len() - 1]);
        assert(join(compacts, seq![',']) + strip_layout(t, false, false) =~= join(cinit, seq![',']) + (seq![',']
            + (compacts[compacts.len() - 1] + strip_layout(t, false, false))));
    }
}

/// A container's text `open`, line feed, parts, line feed, indentation,
/// `close` strips to `open`, the compact parts joined by `,`, `close`.
proof fn lemma_strip_container(
    open: char,
    close: char,
    parts: Seq<Seq<char>>,
    compacts: Seq<Seq<char>>,
    m: nat,
    t: Seq<char>,
)
    requires
        open != '"' && open != ' ' && open != '\n',
        close != '"' && close != ' ' && close != '\n',
        parts.len() > 0,
        compacts.len() == parts.len(),
        forall|i: int, u: Seq<char>|
            0 <= i < parts.len() ==> #[trigger] strip_layout(parts[i] + u, false, false) == compacts[i]
                + strip_layout(u, false, false),
    ensures
        strip_layout(
            seq![open, '\n'] + join(parts, seq![',', '\n']) + seq!['\n'] + indent(m) + seq![close] + t,
            false,
            false,
        ) == seq![open] + join(compacts, seq![',']) + seq![close] + strip_layout(t, false, false),
{
    let head = seq![open, '\n'];
    let tail = seq!['\n'] + indent(m) + seq![close];
    let body = join(parts, seq![',', '\n']);
    assert(head + body + seq!['\n'] + indent(m) + seq![close] + t =~= head + (body + (tail + t)));
    assert forall|i: int| 0 <= i < tail.len() implies #[trigger] tail[i] != '"' by {
        if i > 0 && i < tail.len() - 1 {
            assert(tail[i] == indent(m)[i - 1]);
        }
    }
    lemma_strip_plain(tail, t);
    lemma_layout_free_spaces(m);
    assert(layout_free(tail) =~= seq![close]) by {
        assert(tail.drop_first() =~= indent(m) + seq![close]);
        lemma_strip_free_append(indent(m), seq![close]);
        reveal_with_fuel(layout_free, 2);
        assert(seq![close].drop_first() =~= Seq::<char>::empty());
    }
    lemma_strip_join(parts, compacts, tail + t);
    lemma_strip_plain(head, body + (tail + t));
    assert(layout_free(head) =~= seq![open]) by {
        reveal_with_fuel(layout_free, 3);
        assert(head.drop_first() =~= seq!['\n']);
        assert(head.drop_first().drop_first() =~= Seq::<char>::empty());
    }
}

proof fn lemma_strip_free_append(a: Seq<char>, b: Seq<char>)
    ensures
        layout_free(a + b) == layout_free(a) + layout_free(b),
    decreases a.len(),
{
    if a.len() == 0 {
        assert(a + b =~= b);
        assert(layout_free(a) + layout_free(b) =~= layout_free(b));
    } else {
        lemma_strip_free_append(a.drop_first(), b);
        assert((a + b).drop_first() =~= a.drop_first() + b);
        assert((a + b)[0] == a[0]);
        assert(layout_free(a + b) =~= layout_free(a) + layout_free(b));
    }
}

proof fn lemma_strip_pretty(j: Json, m: nat, t: Seq<char>)
    requires
        floats_plain(j),
    ensures
        strip_layout(pretty(j, m) + t, false, false) == compact(j) + strip_layout(t, false, false),
    decreases j, 1nat,
{
    match j {
        Json::Array(items) => {
            assert(decreases_to!(j => items));
            assert(decreases_to!(items => items@));
            if items@.len() > 0 {
                lemma_strip_items(items@, m);
                lemma_strip_container('[', ']', pretty_items(items@, m), compact_items(items@), m, t);
                assert(compact(j) =~= seq!['['] + join(compact_items(items@), seq![',']) + seq![']']);
            } else {
                assert(compact_items(items@) =~= Seq::<Seq<char>>::empty());
                assert(compact(j) =~= seq!['[', ']']);
                lemma_strip_plain(seq!['[', ']'], t);
                lemma_layout_free_none(seq!['[', ']']);
            }
        },
        Json::Object(entries) => {
            assert(decreases_to!(j => entries));
            assert(decreases_to!(entries => entries@));
            if entries@.len() > 0 {
                lemma_strip_entries(entries@, m);
                lemma_strip_container('{', '}', pretty_entries(entries@, m), compact_entries(entries@), m, t);
                assert(compact(j) =~= seq!['{'] + join(compact_entries(entries@), seq![',']) + seq!['}']);
            } else {
                assert(compact_entries(entries@) =~= Seq::<Seq<char>>::empty());
                assert(compact(j) =~= seq!['{', '}']);
                lemma_strip_plain(seq!['{', '}'], t);
                lemma_layout_free_none(seq!['{', '}']);
            }
        },
        _ => {
            lemma_strip_scalar(j, t);
        },
    }
}

proof fn lemma_strip_items(items: Seq<Json>, m: nat)
    requires
        items_plain(items),
    ensures
        pretty_items(items, m).len() == items.len(),
        compact_items(items).len() == items.len(),
        forall|i: int, u: Seq<char>|
            0 <= i < items.len() ==> #[trigger] strip_layout(pretty_items(items, m)[i] + u, false, false)
                == compact_items(items)[i] + strip_layout(u, false, false),
    decreases items, 0nat,
{
    if items.len() > 0 {
        let init = items.drop_last();
        lemma_strip_items(init, m);
        assert(decreases_to!(items => items[items.len() - 1]));
        let it = items.last();
        assert forall|i: int, u: Seq<char>|
            0 <= i < items.len() implies #[trigger] strip_layout(pretty_items(items, m)[i] + u, false, false)
                == compact_items(items)[i] + strip_layout(u, false, false) by {
            if i < items.len() - 1 {
                assert(pretty_items(items, m)[i] == pretty_items(init, m)[i]);
                assert(compact_items(items)[i] == compact_items(init)[i]);
            } else {
                lemma_strip_pretty(it, m + 1, u);
                let ind = indent(m + 1);
                assert(forall|k: int| 0 <= k < ind.len() ==> #[trigger] ind[k] != '"');
                lemma_strip_plain(ind, pretty(it, m + 1) + u);
                lemma_layout_free_spaces(m + 1);
                assert(pretty_items(items, m)[i] + u =~= ind + (pretty(it, m + 1) + u));
                assert(compact_items(items)[i] == compact(it));
            }
        }
    }
}

proof fn lemma_strip_entries(entries: Seq<(String, Json)>, m: nat)
    requires
        entries_plain(entries),
    ensures
        pretty_entries(entries, m).len() == entries.len(),
        compact_entries(entries).len() == entries.len(),
        forall|i: int, u: Seq<char>|
            0 <= i < entries.len() ==> #[trigger] strip_layout(pretty_entries(entries, m)[i] + u, false, false)
                == compact_entries(entries)[i] + strip_layout(u, false, false),
    decreases entries, 0nat,
{
    if entries.len() > 0 {
        let init = entries.drop_last();
        lemma_strip_entries(init, m);
        let e = entries.last();
        assert(decreases_to!(entries => entries[entries.len() - 1]));
        assert(decreases_to!(entries[entries.len() - 1] => e.1));
        assert forall|i: int, u: Seq<char>|
            0 <= i < entries.len() implies #[trigger] strip_layout(pretty_entries(entries, m)[i] + u, false, false)
                == compact_entries(entries)[i] + strip_layout(u, false, false) by {
            if i < entries.len() - 1 {
                assert(pretty_entries(entries, m)[i] == pretty_entries(init, m)[i]);
                assert(compact_entries(entries)[i] == compact_entries(init)[i]);
            } else {
                let ind = indent(m + 1);
                let q = quoted(e.0@);
                let colon = seq![':', ' '];
                lemma_strip_pretty(e.1, m + 1, u);
                lemma_strip_plain(colon, pretty(e.1, m + 1) + u);
                assert(layout_free(colon) =~= seq![':']) by {
                    reveal_with_fuel(layout_free, 3);
                    assert(colon.drop_first() =~= seq![' ']);
                    assert(colon.drop_first().drop_first() =~= Seq::<char>::empty());
                }
                lemma_strip_quoted(e.0@, colon + (pretty(e.1, m + 1) + u));
                assert(forall|k: int| 0 <= k < ind.len() ==> #[trigger] ind[k] != '"');
                lemma_strip_plain(ind, q + (colon + (pretty(e.1, m + 1) + u)));
                lemma_layout_free_spaces(m + 1);
                assert(pretty_entries(entries, m)[i] + u =~= ind + (q + (colon + (pretty(e.1, m + 1) + u))));
                assert(compact_entries(entries)[i] == q + seq![':'] + compact(e.1));
                assert(q + (seq![':'] + (compact(e.1) + strip_layout(u, false, false))) =~= q + seq![':'] + compact(e.1)
                    + strip_layout(u, false, false));
            }
        }
    }
}

/// Law: pretty and compact JSON hold the same tokens. Removing from the
/// pretty text every space and line feed that stands outside a string
/// literal gives exactly the compact text, as long as the pre-rendered
/// numbers (`F64` text) hold no space, line feed or double quote.
pub proof fn lemma_pretty_strips_to_compact(j: Json)
    requires
        floats_plain(j),
    ensures
        strip_layout(pretty(j, 0), false, false) == compact(j),
{
    lemma_strip_pretty(j, 0, Seq::<char>::empty());
    assert(pretty(j, 0) + Seq::<char>::empty() =~= pretty(j, 0));
    assert(compact(j) + strip_layout(Seq::<char>::empty(), false, false) =~= compact(j));
}

} // verus!
