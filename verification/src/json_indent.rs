//! How the pretty-printed text of a JSON value depends on its nesting level.
use vstd::prelude::*;
use crate::json::{
    entries_one_line, floats_one_line, indent, items_one_line, lemma_quoted_no_newline, lemma_scalar_no_newline,
    no_newline, pretty, pretty_entries, pretty_items, quoted, Json,
};
use crate::text::join;

verus! {

/// `s` with `n` levels of indentation inserted after every line feed.
pub open spec fn shift_lines(s: Seq<char>, n: nat) -> Seq<char>
    decreases s.len(),
{
    if s.len() == 0 {
        seq![]
    } else if s[0] == '\n' {
        seq!['\n'] + indent(n) + shift_lines(s.drop_first(), n)
    } else {
        seq![s[0]] + shift_lines(s.drop_first(), n)
    }
}

proof fn lemma_shift_append(a: Seq<char>, b: Seq<char>, n: nat)
    ensures
        shift_lines(a + b, n) == shift_lines(a, n) + shift_lines(b, n),
    decreases a.len(),
{
    if a.len() == 0 {
        assert(a + b =~= b);
        assert(shift_lines(a, n) + shift_lines(b, n) =~= shift_lines(b, n));
    } else {
        lemma_shift_append(a.drop_first(), b, n);
        assert((a + b).drop_first() =~= a.drop_first() + b);
        assert((a + b)[0] == a[0]);
        if a[0] == '\n' {
            assert(shift_lines(a + b, n) =~= shift_lines(a, n) + shift_lines(b, n));
        } else {
            assert(shift_lines(a + b, n) =~= shift_lines(a, n) + shift_lines(b, n));
        }
    }
}

proof fn lemma_shift_no_newline(a: Seq<char>, n: nat)
    requires
        no_newline(a),
    ensures
        shift_lines(a, n) == a,
    decreases a.len(),
{
    if a.len() > 0 {
        assert(no_newline(a.drop_first())) by {
            assert forall|k: int| 0 <= k < a.drop_first().len() implies a.drop_first()[k] != '\n' by {
                assert(a.drop_first()[k] == a[k + 1]);
            }
        }
        lemma_shift_no_newline(a.drop_first(), n);
        assert(a[0] != '\n');
        assert(a =~= seq![a[0]] + a.drop_first());
    }
}

proof fn lemma_shift_join(parts: Seq<Seq<char>>, sep: Seq<char>, n: nat)
    ensures
        shift_lines(join(parts, sep), n) == join(
            parts.map_values(|p: Seq<char>| shift_lines(p, n)),
            shift_lines(sep, n),
        ),
    decreases parts.len(),
{
    let q = parts.map_values(|p: Seq<char>| shift_lines(p, n));
    if parts.len() == 1 {
        assert(q[0] == shift_lines(parts[0], n));
    } else if parts.len() > 1 {
        lemma_shift_join(parts.drop_last(), sep, n);
        assert(parts.drop_last().map_values(|p: Seq<char>| shift_lines(p, n)) =~= q.drop_last());
        lemma_shift_append(join(parts.drop_last(), sep) + sep, parts.last(), n);
        lemma_shift_append(join(parts.drop_last(), sep), sep, n);
        assert(q.last() == shift_lines(parts.last(), n));
    } else {
        assert(shift_lines(Seq::<char>::empty(), n) =~= Seq::<char>::empty());
    }
}

/// `x` in front of a join whose separator ends in `x` is `x` in front of
/// every part.
proof fn lemma_join_prefix(q: Seq<Seq<char>>, s: Seq<char>, x: Seq<char>)
    requires
        q.len() > 0,
    ensures
        x + join(q, s + x) == join(q.map_values(|p: Seq<char>| x + p), s),
    decreases q.len(),
{
    let r = q.map_values(|p: Seq<char>| x + p);
    if q.len() == 1 {
        assert(r[0] == x + q[0]);
    } else {
        lemma_join_prefix(q.drop_last(), s, x);
        assert(q.drop_last().map_values(|p: Seq<char>| x + p) =~= r.drop_last());
        assert(r.last() == x + q.last());
        assert(x + join(q, s + x) =~= (x + join(q.drop_last(), s + x)) + s + (x + q.last()));
    }
}

proof fn lemma_indent_add(a: nat, b: nat)
    ensures
        indent(a) + indent(b) == indent(a + b),
{
    assert(indent(a) + indent(b) =~= indent(a + b));
}

/// The text of a non-empty container at level `m`: `open`, a line feed,
/// the member lines joined by `,` and a line feed, a line feed, the
/// indentation of level `m`, and `close`.
spec fn container(open: char, close: char, parts: Seq<Seq<char>>, m: nat) -> Seq<char> {
    seq![open, '\n'] + join(parts, seq![',', '\n']) + seq!['\n'] + indent(m) + seq![close]
}

proof fn lemma_shift_container(open: char, close: char, parts: Seq<Seq<char>>, shifted: Seq<Seq<char>>, m: nat, k: nat)
    requires
        open != '\n',
        close != '\n',
        parts.len() > 0,
        shifted.len() == parts.len(),
        forall|i: int| 0 <= i < parts.len() ==> indent(k) + shift_lines(#[trigger] parts[i], k) == shifted[i],
    ensures
        shift_lines(container(open, close, parts, m), k) == container(open, close, shifted, m + k),
{
    let sep = seq![',', '\n'];
    let q = parts.map_values(|s: Seq<char>| shift_lines(s, k));
    let body = join(parts, sep);
    lemma_shift_join(parts, sep, k);
    assert(shift_lines(sep, k) =~= sep + indent(k)) by {
        reveal_with_fuel(shift_lines, 3);
        assert(sep.drop_first() =~= seq!['\n']);
        assert(seq!['\n'].drop_first() =~= Seq::<char>::empty());
    }
    lemma_join_prefix(q, sep, indent(k));
    assert(q.map_values(|s: Seq<char>| indent(k) + s) =~= shifted);
    let a = seq![open, '\n'];
    assert(shift_lines(a, k) =~= a + indent(k)) by {
        reveal_with_fuel(shift_lines, 3);
        assert(a.drop_first() =~= seq!['\n']);
        assert(seq!['\n'].drop_first() =~= Seq::<char>::empty());
    }
    let rest = indent(m) + seq![close];
    assert(no_newline(rest));
    lemma_shift_no_newline(rest, k);
    let tail = seq!['\n'] + rest;
    assert(shift_lines(tail, k) =~= seq!['\n'] + indent(k) + rest) by {
        reveal_with_fuel(shift_lines, 2);
        assert(tail[0] == '\n');
        assert(tail.drop_first() =~= rest);
    }
    lemma_shift_append(a + body, tail, k);
    lemma_shift_append(a, body, k);
    lemma_indent_add(k, m);
    assert(container(open, close, parts, m) =~= (a + body) + tail);
    assert(container(open, close, shifted, m + k) =~= a + (indent(k) + join(q, sep + indent(k))) + (seq!['\n']
        + (indent(k) + indent(m)) + seq![close]));
}

proof fn lemma_shift_pretty(j: Json, m: nat, k: nat)
    requires
        floats_one_line(j),
    ensures
        shift_lines(pretty(j, m), k) == pretty(j, m + k),
    decreases j, 1nat,
{
    match j {
        Json::Array(items) => {
            if items@.len() > 0 {
                assert(decreases_to!(j => items));
                assert(decreases_to!(items => items@));
                lemma_shift_items(items@, m, k);
                lemma_shift_container('[', ']', pretty_items(items@, m), pretty_items(items@, m + k), m, k);
                assert(pretty(j, m) == container('[', ']', pretty_items(items@, m), m));
                assert(pretty(j, m + k) == container('[', ']', pretty_items(items@, m + k), m + k));
            } else {
                assert(no_newline(seq!['[', ']']));
                lemma_shift_no_newline(seq!['[', ']'], k);
            }
        },
        Json::Object(entries) => {
            if entries@.len() > 0 {
                assert(decreases_to!(j => entries));
                assert(decreases_to!(entries => entries@));
                lemma_shift_entries(entries@, m, k);
                lemma_shift_container('{', '}', pretty_entries(entries@, m), pretty_entries(entries@, m + k), m, k);
                assert(pretty(j, m) == container('{', '}', pretty_entries(entries@, m), m));
                assert(pretty(j, m + k) == container('{', '}', pretty_entries(entries@, m + k), m + k));
            } else {
                assert(no_newline(seq!['{', '}']));
                lemma_shift_no_newline(seq!['{', '}'], k);
            }
        },
        _ => {
            lemma_scalar_no_newline(j);
            lemma_shift_no_newline(pretty(j, m), k);
        },
    }
}

proof fn lemma_shift_items(items: Seq<Json>, m: nat, k: nat)
    requires
        items_one_line(items),
    ensures
        pretty_items(items, m).len() == items.len(),
        pretty_items(items, m + k).len() == items.len(),
        forall|i: int|
            0 <= i < items.len() ==> indent(k) + shift_lines(#[trigger] pretty_items(items, m)[i], k)
                == pretty_items(items, m + k)[i],
    decreases items, 0nat,
{
    if items.len() > 0 {
        let init = items.drop_last();
        lemma_shift_items(init, m, k);
        assert(decreases_to!(items => items[items.len() - 1]));
        lemma_shift_pretty(items.last(), m + 1, k);
        let line = indent(m + 1) + pretty(items.last(), m + 1);
        lemma_shift_append(indent(m + 1), pretty(items.last(), m + 1), k);
        assert(no_newline(indent(m + 1)));
        lemma_shift_no_newline(indent(m + 1), k);
        lemma_indent_add(k, m + 1);
        assert((indent(k) + indent(m + 1)) + pretty(items.last(), m + 1 + k) =~= indent(k) + shift_lines(line, k));
        assert forall|i: int|
            0 <= i < items.len() implies indent(k) + shift_lines(#[trigger] pretty_items(items, m)[i], k)
                == pretty_items(items, m + k)[i] by {
            if i < items.len() - 1 {
                assert(pretty_items(items, m)[i] == pretty_items(init, m)[i]);
                assert(pretty_items(items, m + k)[i] == pretty_items(init, m + k)[i]);
            }
        }
    }
}

proof fn lemma_shift_entries(entries: Seq<(String, Json)>, m: nat, k: nat)
    requires
        entries_one_line(entries),
    ensures
        pretty_entries(entries, m).len() == entries.len(),
        pretty_entries(entries, m + k).len() == entries.len(),
        forall|i: int|
            0 <= i < entries.len() ==> indent(k) + shift_lines(#[trigger] pretty_entries(entries, m)[i], k)
                == pretty_entries(entries, m + k)[i],
    decreases entries, 0nat,
{
    if entries.len() > 0 {
        let init = entries.drop_last();
        let e = entries.last();
        lemma_shift_entries(init, m, k);
        assert(decreases_to!(entries => entries[entries.len() - 1]));
        assert(decreases_to!(entries[entries.len() - 1] => e.1));
        lemma_shift_pretty(e.1, m + 1, k);
        let head = indent(m + 1) + quoted(e.0@) + seq![':', ' '];
        lemma_quoted_no_newline(e.0@);
        assert(no_newline(head)) by {
            let qq = quoted(e.0@);
            assert forall|x: int| 0 <= x < head.len() implies head[x] != '\n' by {
                if 2 * (m + 1) <= x < 2 * (m + 1) + qq.len() {
                    assert(head[x] == qq[x - 2 * (m + 1)]);
                }
            }
        }
        lemma_shift_no_newline(head, k);
        lemma_shift_append(head, pretty(e.1, m + 1), k);
        lemma_indent_add(k, m + 1);
        assert(indent(k) + (head + pretty(e.1, m + 1 + k)) =~= indent(m + k + 1) + quoted(e.0@) + seq![':', ' ']
            + pretty(e.1, m + k + 1));
        assert(head + pretty(e.1, m + 1) =~= indent(m + 1) + quoted(e.0@) + seq![':', ' '] + pretty(e.1, m + 1));
        assert forall|i: int|
            0 <= i < entries.len() implies indent(k) + shift_lines(#[trigger] pretty_entries(entries, m)[i], k)
                == pretty_entries(entries, m + k)[i] by {
            if i < entries.len() - 1 {
                assert(pretty_entries(entries, m)[i] == pretty_entries(init, m)[i]);
                assert(pretty_entries(entries, m + k)[i] == pretty_entries(init, m + k)[i]);
            }
        }
    }
}

/// Law: written at nesting level `k`, a value's text is its level-0 text
/// with every line after the first indented by `k` more levels (two spaces
/// each), as long as the pre-rendered numbers (`F64` text) hold no line
/// feed. Empty arrays and objects are `[]` and `{}` at every level.
pub proof fn lemma_pretty_at_level(j: Json, k: nat)
    requires
        floats_one_line(j),
    ensures
        pretty(j, k) == shift_lines(pretty(j, 0), k),
{
    lemma_shift_pretty(j, 0, k);
}

} // verus!
