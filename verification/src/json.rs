//! A tiny JSON value type with stable pretty-printing.
//!
//! Build a [`Json`] tree and call [`Json::to_pretty_string`] or
//! [`Json::to_compact_string`]; every command serialises — and escapes
//! strings — identically.
use vstd::prelude::*;
use crate::text::{chars_of_string, dec, dec_exec, extend, join, lemma_join_push, to_string};

verus! {

/// A JSON value.
///
/// A floating-point number is carried as its JSON text (`F64`), rendered by
/// the caller; this type itself holds no floats.
#[derive(Debug)]
pub enum Json {
    Null,
    Bool(bool),
    U64(u64),
    I64(i64),
    F64(String),
    Str(String),
    Array(Vec<Json>),
    /// Insertion-ordered object so field order in output is deterministic.
    Object(Vec<(String, Json)>),
}

impl From<u64> for Json {
    fn from(v: u64) -> (r: Json) {
        Json::U64(v)
    }
}

impl vstd::std_specs::convert::FromSpecImpl<u64> for Json {
    open spec fn obeys_from_spec() -> bool {
        true
    }

    open spec fn from_spec(v: u64) -> Json {
        Json::U64(v)
    }
}

impl From<i64> for Json {
    fn from(v: i64) -> (r: Json) {
        Json::I64(v)
    }
}

impl vstd::std_specs::convert::FromSpecImpl<i64> for Json {
    open spec fn obeys_from_spec() -> bool {
        true
    }

    open spec fn from_spec(v: i64) -> Json {
        Json::I64(v)
    }
}

impl From<bool> for Json {
    fn from(v: bool) -> (r: Json) {
        Json::Bool(v)
    }
}

impl vstd::std_specs::convert::FromSpecImpl<bool> for Json {
    open spec fn obeys_from_spec() -> bool {
        true
    }

    open spec fn from_spec(v: bool) -> Json {
        Json::Bool(v)
    }
}

impl From<String> for Json {
    fn from(v: String) -> (r: Json) {
        Json::Str(v)
    }
}

impl vstd::std_specs::convert::FromSpecImpl<String> for Json {
    open spec fn obeys_from_spec() -> bool {
        true
    }

    open spec fn from_spec(v: String) -> Json {
        Json::Str(v)
    }
}

/// `n` levels of two-space indentation.
pub open spec fn indent(n: nat) -> Seq<char> {
    Seq::new(2 * n, |_i: int| ' ')
}

/// Lowercase hexadecimal digit of `d < 16`.
pub open spec fn hex_digit(d: nat) -> char {
    if d < 10 {
        (('0' as nat) + d) as char
    } else {
        (('a' as nat) + d - 10) as char
    }
}

/// The JSON escape of one character (RFC 8259).
pub open spec fn escape_char(c: char) -> Seq<char> {
    if c == '"' {
        seq!['\\', '"']
    } else if c == '\\' {
        seq!['\\', '\\']
    } else if c == '\n' {
        seq!['\\', 'n']
    } else if c == '\r' {
        seq!['\\', 'r']
    } else if c == '\t' {
        seq!['\\', 't']
    } else if (c as u32) < 0x20 {
        seq!['\\', 'u', '0', '0', hex_digit(((c as u32) / 16) as nat), hex_digit(((c as u32) % 16) as nat)]
    } else {
        seq![c]
    }
}

/// The escaped characters of `s`.
pub open spec fn escape_body(s: Seq<char>) -> Seq<char>
    decreases s.len(),
{
    if s.len() == 0 {
        seq![]
    } else {
        escape_body(s.drop_last()) + escape_char(s.last())
    }
}

/// `s` as a quoted, escaped JSON string.
pub open spec fn quoted(s: Seq<char>) -> Seq<char> {
    seq!['"'] + escape_body(s) + seq!['"']
}

/// The decimal rendering of a signed integer.
pub open spec fn dec_i64(n: i64) -> Seq<char> {
    if n < 0 {
        seq!['-'] + dec((-n) as nat)
    } else {
        dec(n as nat)
    }
}

/// The text of a scalar (non-container) value.
pub open spec fn scalar_text(j: Json) -> Seq<char> {
    match j {
        Json::Null => seq!['n', 'u', 'l', 'l'],
        Json::Bool(b) => if b {
            seq!['t', 'r', 'u', 'e']
        } else {
            seq!['f', 'a', 'l', 's', 'e']
        },
        Json::U64(n) => dec(n as nat),
        Json::I64(n) => dec_i64(n),
        Json::F64(t) => t@,
        Json::Str(s) => quoted(s@),
        _ => seq![],
    }
}

/// Pretty-printed text of `j` at nesting level `ind` (2-space indent, no
/// trailing newline). Empty containers print as `[]` / `{}`; otherwise each
/// element sits on its own line, separated by commas.
pub open spec fn pretty(j: Json, ind: nat) -> Seq<char>
    decreases j, 1nat,
{
    match j {
        Json::Array(items) => if items@.len() == 0 {
            seq!['[', ']']
        } else {
            seq!['[', '\n'] + join(pretty_items(items@, ind), seq![',', '\n']) + seq!['\n'] + indent(
                ind,
            ) + seq![']']
        },
        Json::Object(entries) => if entries@.len() == 0 {
            seq!['{', '}']
        } else {
            seq!['{', '\n'] + join(pretty_entries(entries@, ind), seq![',', '\n']) + seq!['\n']
                + indent(ind) + seq!['}']
        },
        _ => scalar_text(j),
    }
}

/// The lines of the elements of an array at level `ind`.
pub open spec fn pretty_items(items: Seq<Json>, ind: nat) -> Seq<Seq<char>>
    decreases items, 0nat,
{
    if items.len() == 0 {
        seq![]
    } else {
        pretty_items(items.drop_last(), ind).push(indent(ind + 1) + pretty(items.last(), ind + 1))
    }
}

/// The lines of the members of an object at level `ind`.
pub open spec fn pretty_entries(entries: Seq<(String, Json)>, ind: nat) -> Seq<Seq<char>>
    decreases entries, 0nat,
{
    if entries.len() == 0 {
        seq![]
    } else {
        pretty_entries(entries.drop_last(), ind).push(
            indent(ind + 1) + quoted(entries.last().0@) + seq![':', ' '] + pretty(
                entries.last().1,
                ind + 1,
            ),
        )
    }
}

/// Compact single-line text of `j` (no whitespace).
pub open spec fn compact(j: Json) -> Seq<char>
    decreases j, 1nat,
{
    match j {
        Json::Array(items) => seq!['['] + join(compact_items(items@), seq![',']) + seq![']'],
        Json::Object(entries) => seq!['{'] + join(compact_entries(entries@), seq![',']) + seq![
            '}',
        ],
        _ => scalar_text(j),
    }
}

pub open spec fn compact_items(items: Seq<Json>) -> Seq<Seq<char>>
    decreases items, 0nat,
{
    if items.len() == 0 {
        seq![]
    } else {
        compact_items(items.drop_last()).push(compact(items.last()))
    }
}

pub open spec fn compact_entries(entries: Seq<(String, Json)>) -> Seq<Seq<char>>
    decreases entries, 0nat,
{
    if entries.len() == 0 {
        seq![]
    } else {
        compact_entries(entries.drop_last()).push(
            quoted(entries.last().0@) + seq![':'] + compact(entries.last().1),
        )
    }
}

fn hex_digit_exec(d: u32) -> (r: char)
    requires
        d < 16,
    ensures
        r == hex_digit(d as nat),
{
    let u: u32 = if d < 10 {
        48 + d
    } else {
        87 + d
    };
    let b: u8 = u as u8;
    assert(b == u);
    b as char
}

/// Append `s` to `out` as a quoted, escaped JSON string (RFC 8259).
pub fn write_escaped(out: &mut Vec<char>, s: &String)
    ensures
        final(out)@ == old(out)@ + quoted(s@),
{
    let cs = chars_of_string(s);
    out.push('"');
    let ghost start = out@;
    let mut i: usize = 0;
    while i < cs.len()
        invariant
            i <= cs.len(),
            cs@ == s@,
            out@ == start + escape_body(cs@.take(i as int)),
        decreases cs.len() - i,
    {
        let c = cs[i];
        let ghost before = out@;
        if c == '"' {
            out.push('\\');
            out.push('"');
        } else if c == '\\' {
            out.push('\\');
            out.push('\\');
        } else if c == '\n' {
            out.push('\\');
            out.push('n');
        } else if c == '\r' {
            out.push('\\');
            out.push('r');
        } else if c == '\t' {
            out.push('\\');
            out.push('t');
        } else if (c as u32) < 0x20 {
            let v = c as u32;
            out.push('\\');
            out.push('u');
            out.push('0');
            out.push('0');
            out.push(hex_digit_exec(v / 16));
            out.push(hex_digit_exec(v % 16));

        } else {
            out.push(c);
        }
        assert(out@ =~= before + escape_char(c));
        assert(cs@.take(i + 1).drop_last() =~= cs@.take(i as int));
        i = i + 1;
    }
    assert(cs@.take(cs.len() as int) =~= cs@);
    out.push('"');
    assert(out@ =~= old(out)@ + quoted(s@));
}

/// Append `n` in decimal, with a leading `-` when negative.
fn write_i64(out: &mut Vec<char>, n: i64)
    ensures
        final(out)@ == old(out)@ + dec_i64(n),
{
    if n < 0 {
        let m: u64 = if n == i64::MIN {
            9223372036854775808u64
        } else {
            (-n) as u64
        };
        assert(m == -n);
        out.push('-');
        let d = dec_exec(m);
        extend(out, &d);
        assert(out@ =~= old(out)@ + dec_i64(n));
    } else {
        let d = dec_exec(n as u64);
        extend(out, &d);
    }
}

/// Append the text of a scalar value.
fn write_scalar(j: &Json, out: &mut Vec<char>)
    requires
        !(j is Array),
        !(j is Object),
    ensures
        final(out)@ == old(out)@ + scalar_text(*j),
{
    match j {
        Json::Null => {
            out.push('n');
            out.push('u');
            out.push('l');
            out.push('l');
        },
        Json::Bool(b) => {
            if *b {
                out.push('t');
                out.push('r');
                out.push('u');
                out.push('e');
            } else {
                out.push('f');
                out.push('a');
                out.push('l');
                out.push('s');
                out.push('e');
            }
        },
        Json::U64(n) => {
            let d = dec_exec(*n);
            extend(out, &d);
        },
        Json::I64(n) => {
            write_i64(out, *n);
        },
        Json::F64(t) => {
            let d = chars_of_string(t);
            extend(out, &d);
        },
        Json::Str(s) => {
            write_escaped(out, s);
        },
        _ => {},
    }
    assert(out@ =~= old(out)@ + scalar_text(*j));
}

impl Json {
    /// Serialise to a pretty-printed string (2-space indent, no trailing newline).
    pub fn to_pretty_string(&self) -> (r: String)
        ensures
            r@ == pretty(*self, 0),
    {
        let mut out: Vec<char> = Vec::new();
        let prefix: Vec<char> = Vec::new();
        assert(prefix@ =~= indent(0));
        self.write_lines(&mut out, &prefix, Ghost(0));
        to_string(&out)
    }

    /// Append the pretty-printed text of `self` as it stands at nesting level
    /// `indent`: every line after the first is indented by `indent` more
    /// levels (see `lemma_pretty_at_level`).
    pub fn write(&self, out: &mut Vec<char>, indent: usize)
        ensures
            final(out)@ == old(out)@ + pretty(*self, indent as nat),
    {
        let mut prefix: Vec<char> = Vec::new();
        let mut i: usize = 0;
        while i < indent
            invariant
                i <= indent,
                prefix@ == crate::json::indent(i as nat),
            decreases indent - i,
        {
            prefix.push(' ');
            prefix.push(' ');
            assert(prefix@ =~= crate::json::indent((i + 1) as nat));
            i = i + 1;
        }
        self.write_lines(out, &prefix, Ghost(indent as nat));
    }

    fn write_lines(&self, out: &mut Vec<char>, prefix: &Vec<char>, Ghost(ind): Ghost<nat>)
        requires
            prefix@ == indent(ind),
        ensures
            final(out)@ == old(out)@ + pretty(*self, ind),
        decreases self,
    {
        match self {
            Json::Array(items) => {
                if items.len() == 0 {
                    out.push('[');
                    out.push(']');
                    assert(out@ =~= old(out)@ + pretty(*self, ind));
                    return;
                }
                out.push('[');
                out.push('\n');
                let ghost start = out@;
                let mut inner = prefix.clone();
                inner.push(' ');
                inner.push(' ');
                assert(inner@ =~= indent(ind + 1));
                let ghost parts = pretty_items(items@, ind);
                let mut i: usize = 0;
                while i < items.len()
                    invariant
                        i <= items.len(),
                        *self is Array && self->Array_0 == *items,
                        inner@ == indent(ind + 1),
                        parts == pretty_items(items@, ind),
                        out@ == start + join(pretty_items(items@.take(i as int), ind), seq![',', '\n']),
                    decreases items.len() - i,
                {
                    proof {
                        assert(items@.take(i + 1).drop_last() =~= items@.take(i as int));
                        lemma_join_push(
                            pretty_items(items@.take(i as int), ind),
                            seq![',', '\n'],
                            indent(ind + 1) + pretty(items@[i as int], ind + 1),
                        );
                        lemma_pretty_items_len(items@.take(i as int), ind);
                    }
                    let ghost before = out@;
                    if i > 0 {
                        out.push(',');
                        out.push('\n');
                    }
                    extend(out, &inner);
                    assert(decreases_to!(*self => self->Array_0));
                    assert(decreases_to!(self->Array_0 => items@));
                    assert(decreases_to!(items@ => items@[i as int]));
                    assert(decreases_to!(*self => items@[i as int]));
                    items[i].write_lines(out, &inner, Ghost(ind + 1));
                    assert(out@ =~= before + (if i > 0 {
                        seq![',', '\n']
                    } else {
                        seq![]
                    }) + (indent(ind + 1) + pretty(items@[i as int], ind + 1)));
                    i = i + 1;
                }
                assert(items@.take(items.len() as int) =~= items@);
                out.push('\n');
                extend(out, prefix);
                out.push(']');
                assert(out@ =~= old(out)@ + pretty(*self, ind));
            },
            Json::Object(entries) => {
                if entries.len() == 0 {
                    out.push('{');
                    out.push('}');
                    assert(out@ =~= old(out)@ + pretty(*self, ind));
                    return;
                }
                out.push('{');
                out.push('\n');
                let ghost start = out@;
                let mut inner = prefix.clone();
                inner.push(' ');
                inner.push(' ');
                assert(inner@ =~= indent(ind + 1));
                let mut i: usize = 0;
                while i < entries.len()
                    invariant
                        i <= entries.len(),
                        *self is Object && self->Object_0 == *entries,
                        inner@ == indent(ind + 1),
                        out@ == start + join(
                            pretty_entries(entries@.take(i as int), ind),
                            seq![',', '\n'],
                        ),
                    decreases entries.len() - i,
                {
                    let ghost e = entries@[i as int];
                    proof {
                        assert(entries@.take(i + 1).drop_last() =~= entries@.take(i as int));
                        lemma_join_push(
                            pretty_entries(entries@.take(i as int), ind),
                            seq![',', '\n'],
                            indent(ind + 1) + quoted(e.0@) + seq![':', ' '] + pretty(e.1, ind + 1),
                        );
                        lemma_pretty_entries_len(entries@.take(i as int), ind);
                    }
                    let ghost before = out@;
                    if i > 0 {
                        out.push(',');
                        out.push('\n');
                    }
                    extend(out, &inner);
                    let (key, value) = &entries[i];
                    write_escaped(out, key);
                    out.push(':');
                    out.push(' ');
                    assert(decreases_to!(*self => self->Object_0));
                    assert(decreases_to!(self->Object_0 => entries@));
                    assert(decreases_to!(entries@ => entries@[i as int]));
                    assert(decreases_to!(entries@[i as int] => entries@[i as int].1));
                    assert(decreases_to!(*self => entries@[i as int].1));
                    value.write_lines(out, &inner, Ghost(ind + 1));
                    assert(out@ =~= before + (if i > 0 {
                        seq![',', '\n']
                    } else {
                        seq![]
                    }) + (indent(ind + 1) + quoted(e.0@) + seq![':', ' '] + pretty(e.1, ind + 1)));
                    i = i + 1;
                }
                assert(entries@.take(entries.len() as int) =~= entries@);
                out.push('\n');
                extend(out, prefix);
                out.push('}');
                assert(out@ =~= old(out)@ + pretty(*self, ind));
            },
            _ => {
                write_scalar(self, out);
            },
        }
    }

    /// Serialise to a compact single-line string (no whitespace).
    pub fn to_compact_string(&self) -> (r: String)
        ensures
            r@ == compact(*self),
    {
        let mut out: Vec<char> = Vec::new();
        self.write_compact(&mut out);
        to_string(&out)
    }

    fn write_compact(&self, out: &mut Vec<char>)
        ensures
            final(out)@ == old(out)@ + compact(*self),
        decreases self,
    {
        match self {
            Json::Array(items) => {
                out.push('[');
                let ghost start = out@;
                let mut i: usize = 0;
                while i < items.len()
                    invariant
                        i <= items.len(),
                        *self is Array && self->Array_0 == *items,
                        out@ == start + join(compact_items(items@.take(i as int)), seq![',']),
                    decreases items.len() - i,
                {
                    proof {
                        assert(items@.take(i + 1).drop_last() =~= items@.take(i as int));
                        lemma_join_push(
                            compact_items(items@.take(i as int)),
                            seq![','],
                            compact(items@[i as int]),
                        );
                        lemma_compact_items_len(items@.take(i as int));
                    }
                    let ghost before = out@;
                    if i > 0 {
                        out.push(',');
                    }
                    assert(decreases_to!(*self => self->Array_0));
                    assert(decreases_to!(self->Array_0 => items@));
                    assert(decreases_to!(items@ => items@[i as int]));
                    assert(decreases_to!(*self => items@[i as int]));
                    items[i].write_compact(out);
                    assert(out@ =~= before + (if i > 0 {
                        seq![',']
                    } else {
                        seq![]
                    }) + compact(items@[i as int]));
                    i = i + 1;
                }
                assert(items@.take(items.len() as int) =~= items@);
                out.push(']');
                assert(out@ =~= old(out)@ + compact(*self));
            },
            Json::Object(entries) => {
                out.push('{');
                let ghost start = out@;
                let mut i: usize = 0;
                while i < entries.len()
                    invariant
                        i <= entries.len(),
                        *self is Object && self->Object_0 == *entries,
                        out@ == start + join(compact_entries(entries@.take(i as int)), seq![',']),
                    decreases entries.len() - i,
                {
                    let ghost e = entries@[i as int];
                    proof {
                        assert(entries@.take(i + 1).drop_last() =~= entries@.take(i as int));
                        lemma_join_push(
                            compact_entries(entries@.take(i as int)),
                            seq![','],
                            quoted(e.0@) + seq![':'] + compact(e.1),
                        );
                        lemma_compact_entries_len(entries@.take(i as int));
                    }
                    let ghost before = out@;
                    if i > 0 {
                        out.push(',');
                    }
                    let (key, value) = &entries[i];
                    write_escaped(out, key);
                    out.push(':');
                    assert(decreases_to!(*self => self->Object_0));
                    assert(decreases_to!(self->Object_0 => entries@));
                    assert(decreases_to!(entries@ => entries@[i as int]));
                    assert(decreases_to!(entries@[i as int] => entries@[i as int].1));
                    assert(decreases_to!(*self => entries@[i as int].1));
                    value.write_compact(out);
                    assert(out@ =~= before + (if i > 0 {
                        seq![',']
                    } else {
                        seq![]
                    }) + (quoted(e.0@) + seq![':'] + compact(e.1)));
                    i = i + 1;
                }
                assert(entries@.take(entries.len() as int) =~= entries@);
                out.push('}');
                assert(out@ =~= old(out)@ + compact(*self));
            },
            _ => {
                write_scalar(self, out);
            },
        }
    }
}

/// Law: an escaped string holds no control character (below U+0020) and
/// every double quote in it is escaped, so the quoted text is one valid JSON
/// string token on a single line.
pub proof fn lemma_escape_body_clean(s: Seq<char>)
    ensures
        forall|i: int| 0 <= i < escape_body(s).len() ==> (#[trigger] escape_body(s)[i] as u32) >= 0x20,
        forall|i: int|
            0 <= i < escape_body(s).len() && #[trigger] escape_body(s)[i] == '"' ==> i > 0
                && escape_body(s)[i - 1] == '\\',
    decreases s.len(),
{
    if s.len() > 0 {
        lemma_escape_body_clean(s.drop_last());
        let p = escape_body(s.drop_last());
        let c = s.last();
        let e = escape_char(c);
        let all = escape_body(s);
        assert(all == p + e);
        assert forall|i: int| 0 <= i < all.len() implies (#[trigger] all[i] as u32) >= 0x20 by {
            if i >= p.len() {
                let k = i - p.len();
                assert(all[i] == e[k]);
                if (c as u32) < 0x20 && c != '\n' && c != '\r' && c != '\t' && c != '"' && c != '\\' {
                    assert(((c as u32) / 16) < 2);
                }
            }
        }
        assert forall|i: int|
            0 <= i < all.len() && #[trigger] all[i] == '"' implies i > 0 && all[i - 1] == '\\' by {
            if i >= p.len() {
                let k = i - p.len();
                assert(all[i] == e[k]);
                if k > 0 {
                    assert(all[i - 1] == e[k - 1]);
                }
                if (c as u32) < 0x20 && c != '\n' && c != '\r' && c != '\t' && c != '"' && c != '\\' {
                    assert(((c as u32) / 16) < 2);
                    assert(((c as u32) % 16) < 16);
                }
            } else {
                assert(all[i] == p[i]);
                assert(all[i - 1] == p[i - 1]);
            }
        }
    }
}

/// The value of a hexadecimal digit (either case).
pub open spec fn hex_value(c: char) -> Option<nat> {
    if '0' <= c && c <= '9' {
        Some((c as nat - '0' as nat) as nat)
    } else if 'a' <= c && c <= 'f' {
        Some((c as nat - 'a' as nat + 10) as nat)
    } else if 'A' <= c && c <= 'F' {
        Some((c as nat - 'A' as nat + 10) as nat)
    } else {
        None
    }
}

/// The code point written by the four hexadecimal digits (`t[2..6]`) of the
/// `\u` escape text `t`, when they are hexadecimal digits.
pub open spec fn hex4(t: Seq<char>) -> Option<nat>
    recommends
        t.len() >= 6,
{
    match (hex_value(t[2]), hex_value(t[3]), hex_value(t[4]), hex_value(t[5])) {
        (Some(a), Some(b), Some(c), Some(d)) => Some(a * 4096 + b * 256 + c * 16 + d),
        _ => None,
    }
}

/// The character written by the escape sequence at the start of `t` (which
/// starts with a backslash) and the length of that sequence: the
/// two-character escapes of RFC 8259, and `\u` with four hexadecimal digits
/// for a code point outside the surrogate range.
pub open spec fn unescape_one(t: Seq<char>) -> Option<(char, int)>
    recommends
        t.len() >= 1,
{
    if t.len() < 2 {
        None
    } else {
        let e = t[1];
        if e == '"' {
            Some(('"', 2))
        } else if e == '\\' {
            Some(('\\', 2))
        } else if e == '/' {
            Some(('/', 2))
        } else if e == 'b' {
            Some(('\u{8}', 2))
        } else if e == 'f' {
            Some(('\u{c}', 2))
        } else if e == 'n' {
            Some(('\n', 2))
        } else if e == 'r' {
            Some(('\r', 2))
        } else if e == 't' {
            Some(('\t', 2))
        } else if e == 'u' && t.len() >= 6 {
            match hex4(t) {
                Some(v) => if v < 0xD800 || (0xE000 <= v && v <= 0x10FFFF) {
                    Some((v as char, 6))
                } else {
                    None
                },
                None => None,
            }
        } else {
            None
        }
    }
}

/// The characters that the body of a JSON string token stands for, read
/// from the front; `None` when the text is not a valid string body (an
/// unescaped `"` or control character, or an unknown escape). Surrogate
/// pairs written as two `\u` escapes are not decoded.
pub open spec fn unescape(t: Seq<char>) -> Option<Seq<char>>
    decreases t.len(),
{
    if t.len() == 0 {
        Some(seq![])
    } else if t[0] == '\\' {
        match unescape_one(t) {
            Some((c, n)) => match unescape(t.skip(n)) {
                Some(rest) => Some(seq![c] + rest),
                None => None,
            },
            None => None,
        }
    } else if t[0] == '"' || (t[0] as u32) < 0x20 {
        None
    } else {
        match unescape(t.skip(1)) {
            Some(rest) => Some(seq![t[0]] + rest),
            None => None,
        }
    }
}

/// Lemma: escaping works character by character.
pub proof fn lemma_escape_body_append(a: Seq<char>, b: Seq<char>)
    ensures
        escape_body(a + b) == escape_body(a) + escape_body(b),
    decreases b.len(),
{
    if b.len() == 0 {
        assert(a + b =~= a);
        assert(escape_body(a) + escape_body(b) =~= escape_body(a));
    } else {
        lemma_escape_body_append(a, b.drop_last());
        assert((a + b).drop_last() =~= a + b.drop_last());
        assert((a + b).last() == b.last());
        assert(escape_body(a) + escape_body(b) =~= escape_body(a) + escape_body(b.drop_last()) + escape_char(b.last()));
    }
}

proof fn lemma_hex_digit_value(d: nat)
    requires
        d < 16,
    ensures
        hex_value(hex_digit(d)) == Some(d),
{
}

/// Lemma: the escape of one character, followed by any text, decodes to
/// that character followed by what the text decodes to.
proof fn lemma_unescape_char(c: char, t: Seq<char>)
    ensures
        unescape(escape_char(c) + t) == match unescape(t) {
            Some(rest) => Some(seq![c] + rest),
            None => None::<Seq<char>>,
        },
{
    let e = escape_char(c);
    let u = e + t;
    assert(u.skip(e.len() as int) =~= t);
    if c == '"' || c == '\\' || c == '\n' || c == '\r' || c == '\t' {
        assert(u[0] == '\\');
        assert(u[1] == e[1]);
    } else if (c as u32) < 0x20 {
        let hi = ((c as u32) / 16) as nat;
        let lo = ((c as u32) % 16) as nat;
        lemma_hex_digit_value(hi);
        lemma_hex_digit_value(lo);
        lemma_hex_digit_value(0);
        assert(hex_digit(0) == '0');
        assert(u[0] == '\\' && u[1] == 'u' && u[2] == '0' && u[3] == '0');
        assert(u[4] == hex_digit(hi) && u[5] == hex_digit(lo));
        assert(hex4(u) == Some(hi * 16 + lo));
        assert(hi * 16 + lo == (c as u32));
        assert((((c as u32) as nat) as char) == c);
    } else {
        assert(u[0] == c);
    }
}

/// Law: escaping loses nothing: the body of every quoted JSON string this
/// library writes decodes back to exactly the text it was given.
pub proof fn lemma_unescape_escape(s: Seq<char>)
    ensures
        unescape(escape_body(s)) == Some(s),
    decreases s.len(),
{
    if s.len() == 0 {
    } else {
        let c = s[0];
        let r = s.drop_first();
        assert(s =~= seq![c] + r);
        lemma_escape_body_append(seq![c], r);
        assert(seq![c].drop_last() =~= Seq::<char>::empty());
        assert(seq![c].last() == c);
        assert(escape_body(Seq::<char>::empty()) =~= Seq::<char>::empty());
        assert(escape_body(seq![c]) =~= escape_char(c));
        lemma_unescape_escape(r);
        lemma_unescape_char(c, escape_body(r));
        assert(seq![c] + r == s);
    }
}

/// `s` holds no line feed.
pub open spec fn no_newline(s: Seq<char>) -> bool {
    forall|k: int| 0 <= k < s.len() ==> s[k] != '\n'
}

/// Every pre-rendered number in `j` (`F64` text) is free of line feeds.
pub open spec fn floats_one_line(j: Json) -> bool
    decreases j, 1nat,
{
    match j {
        Json::F64(t) => no_newline(t@),
        Json::Array(items) => items_one_line(items@),
        Json::Object(entries) => entries_one_line(entries@),
        _ => true,
    }
}

pub open spec fn items_one_line(items: Seq<Json>) -> bool
    decreases items, 0nat,
{
    if items.len() == 0 {
        true
    } else {
        items_one_line(items.drop_last()) && floats_one_line(items.last())
    }
}

pub open spec fn entries_one_line(entries: Seq<(String, Json)>) -> bool
    decreases entries, 0nat,
{
    if entries.len() == 0 {
        true
    } else {
        entries_one_line(entries.drop_last()) && floats_one_line(entries.last().1)
    }
}

proof fn lemma_join_no_newline(parts: Seq<Seq<char>>, sep: Seq<char>)
    requires
        forall|i: int| 0 <= i < parts.len() ==> no_newline(#[trigger] parts[i]),
        no_newline(sep),
    ensures
        no_newline(join(parts, sep)),
    decreases parts.len(),
{
    if parts.len() > 1 {
        let init = parts.drop_last();
        assert forall|i: int| 0 <= i < init.len() implies no_newline(#[trigger] init[i]) by {
            assert(init[i] == parts[i]);
        }
        lemma_join_no_newline(init, sep);
        assert(no_newline(parts.last())) by {
            assert(parts.last() == parts[parts.len() - 1]);
        }
        let a = join(init, sep);
        let all = a + sep + parts.last();
        assert forall|k: int| 0 <= k < all.len() implies all[k] != '\n' by {
            if k < a.len() {
                assert(all[k] == a[k]);
            } else if k < a.len() + sep.len() {
                assert(all[k] == sep[k - a.len()]);
            } else {
                assert(all[k] == parts.last()[k - a.len() - sep.len()]);
            }
        }
    } else if parts.len() == 1 {
        assert(no_newline(parts[0]));
    }
}

proof fn lemma_dec_no_newline(n: nat)
    ensures
        no_newline(dec(n)),
    decreases n,
{
    if n >= 10 {
        lemma_dec_no_newline(n / 10);
        let d = dec(n / 10).push(crate::text::digit_char(n % 10));
        assert forall|k: int| 0 <= k < d.len() implies d[k] != '\n' by {
            if k < d.len() - 1 {
                assert(d[k] == dec(n / 10)[k]);
            }
        }
    }
}

pub proof fn lemma_quoted_no_newline(s: Seq<char>)
    ensures
        no_newline(quoted(s)),
{
    lemma_escape_body_clean(s);
    let e = escape_body(s);
    let q = quoted(s);
    assert forall|k: int| 0 <= k < q.len() implies q[k] != '\n' by {
        if 0 < k < q.len() - 1 {
            assert(q[k] == e[k - 1]);
            assert((e[k - 1] as u32) >= 0x20);
        }
    }
}

pub proof fn lemma_scalar_no_newline(j: Json)
    requires
        floats_one_line(j),
        !(j is Array),
        !(j is Object),
    ensures
        no_newline(scalar_text(j)),
{
    match j {
        Json::U64(n) => {
            lemma_dec_no_newline(n as nat);
        },
        Json::I64(n) => {
            if n < 0 {
                lemma_dec_no_newline((-n) as nat);
                let t = seq!['-'] + dec((-n) as nat);
                assert forall|k: int| 0 <= k < t.len() implies t[k] != '\n' by {
                    if k > 0 {
                        assert(t[k] == dec((-n) as nat)[k - 1]);
                    }
                }
            } else {
                lemma_dec_no_newline(n as nat);
            }
        },
        Json::Str(s) => {
            lemma_quoted_no_newline(s@);
        },
        _ => {},
    }
}

proof fn lemma_compact_one_line(j: Json)
    requires
        floats_one_line(j),
    ensures
        no_newline(compact(j)),
    decreases j, 1nat,
{
    match j {
        Json::Array(items) => {
            assert(decreases_to!(j => items));
            assert(decreases_to!(items => items@));
            lemma_compact_items_one_line(items@);
            lemma_join_no_newline(compact_items(items@), seq![',']);
            let inner = join(compact_items(items@), seq![',']);
            let t = seq!['['] + inner + seq![']'];
            assert forall|k: int| 0 <= k < t.len() implies t[k] != '\n' by {
                if 0 < k < t.len() - 1 {
                    assert(t[k] == inner[k - 1]);
                }
            }
        },
        Json::Object(entries) => {
            assert(decreases_to!(j => entries));
            assert(decreases_to!(entries => entries@));
            lemma_compact_entries_one_line(entries@);
            lemma_join_no_newline(compact_entries(entries@), seq![',']);
            let inner = join(compact_entries(entries@), seq![',']);
            let t = seq!['{'] + inner + seq!['}'];
            assert forall|k: int| 0 <= k < t.len() implies t[k] != '\n' by {
                if 0 < k < t.len() - 1 {
                    assert(t[k] == inner[k - 1]);
                }
            }
        },
        _ => {
            lemma_scalar_no_newline(j);
        },
    }
}

proof fn lemma_compact_items_one_line(items: Seq<Json>)
    requires
        items_one_line(items),
    ensures
        compact_items(items).len() == items.len(),
        forall|i: int| 0 <= i < items.len() ==> no_newline(#[trigger] compact_items(items)[i]),
    decreases items, 0nat,
{
    if items.len() > 0 {
        lemma_compact_items_one_line(items.drop_last());
        assert(decreases_to!(items => items[items.len() - 1]));
        lemma_compact_one_line(items.last());
    }
}

proof fn lemma_compact_entries_one_line(entries: Seq<(String, Json)>)
    requires
        entries_one_line(entries),
    ensures
        compact_entries(entries).len() == entries.len(),
        forall|i: int| 0 <= i < entries.len() ==> no_newline(#[trigger] compact_entries(entries)[i]),
    decreases entries, 0nat,
{
    if entries.len() > 0 {
        let e = entries.last();
        lemma_compact_entries_one_line(entries.drop_last());
        assert(decreases_to!(entries => entries[entries.len() - 1]));
        assert(decreases_to!(entries[entries.len() - 1] => e.1));
        lemma_compact_one_line(e.1);
        lemma_quoted_no_newline(e.0@);
        let q = quoted(e.0@);
        let c = compact(e.1);
        let t = q + seq![':'] + c;
        assert forall|k: int| 0 <= k < t.len() implies t[k] != '\n' by {
            if k < q.len() {
                assert(t[k] == q[k]);
            } else if k > q.len() {
                assert(t[k] == c[k - q.len() - 1]);
            }
        }
    }
}

/// Law: compact JSON is a single line: `to_compact_string` never writes a
/// line feed, as long as the pre-rendered numbers (`F64` text) hold none.
pub proof fn lemma_compact_single_line(j: Json)
    requires
        floats_one_line(j),
    ensures
        no_newline(compact(j)),
{
    lemma_compact_one_line(j);
}

/// Law: pretty-printed JSON has no trailing newline (the caller adds the
/// line ending), as long as the pre-rendered numbers (`F64` text) hold no
/// line feed.
pub proof fn lemma_pretty_no_trailing_newline(j: Json, ind: nat)
    requires
        floats_one_line(j),
    ensures
        pretty(j, ind).len() > 0 ==> pretty(j, ind).last() != '\n',
{
    match j {
        Json::Array(items) => {},
        Json::Object(entries) => {},
        Json::Str(s) => {
            assert(quoted(s@).last() == '"');
        },
        Json::U64(n) => {
            lemma_dec_no_newline(n as nat);
            assert(dec(n as nat).last() == dec(n as nat)[dec(n as nat).len() - 1]);
        },
        Json::I64(n) => {
            lemma_scalar_no_newline(j);
            let t = scalar_text(j);
            if t.len() > 0 {
                assert(t.last() == t[t.len() - 1]);
            }
        },
        Json::F64(t) => {
            if t@.len() > 0 {
                assert(t@.last() == t@[t@.len() - 1]);
            }
        },
        _ => {},
    }
}

/// The mathematical content of a [`Json`] value.
pub enum JsonV {
    Null,
    Bool(bool),
    U64(u64),
    I64(i64),
    F64(Seq<char>),
    Str(Seq<char>),
    Array(Seq<JsonV>),
    Object(Seq<(Seq<char>, JsonV)>),
}

/// The content of a JSON value.
pub open spec fn jv(j: Json) -> JsonV
    decreases j, 1nat,
{
    match j {
        Json::Null => JsonV::Null,
        Json::Bool(b) => JsonV::Bool(b),
        Json::U64(n) => JsonV::U64(n),
        Json::I64(n) => JsonV::I64(n),
        Json::F64(t) => JsonV::F64(t@),
        Json::Str(s) => JsonV::Str(s@),
        Json::Array(items) => JsonV::Array(jv_items(items@)),
        Json::Object(entries) => JsonV::Object(jv_entries(entries@)),
    }
}

pub open spec fn jv_items(items: Seq<Json>) -> Seq<JsonV>
    decreases items, 0nat,
{
    if items.len() == 0 {
        seq![]
    } else {
        jv_items(items.drop_last()).push(jv(items.last()))
    }
}

pub open spec fn jv_entries(entries: Seq<(String, Json)>) -> Seq<(Seq<char>, JsonV)>
    decreases entries, 0nat,
{
    if entries.len() == 0 {
        seq![]
    } else {
        jv_entries(entries.drop_last()).push((entries.last().0@, jv(entries.last().1)))
    }
}

/// Lemma: the content of an array grows with its elements.
pub proof fn lemma_jv_items_push(items: Seq<Json>, x: Json)
    ensures
        jv_items(items.push(x)) == jv_items(items).push(jv(x)),
{
    assert(items.push(x).drop_last() =~= items);
}

/// A deep copy of `j`.
fn copy_json(j: &Json) -> (r: Json)
    ensures
        jv(r) == jv(*j),
    decreases j,
{
    match j {
        Json::Null => Json::Null,
        Json::Bool(b) => Json::Bool(*b),
        Json::U64(n) => Json::U64(*n),
        Json::I64(n) => Json::I64(*n),
        Json::F64(t) => Json::F64(t.clone()),
        Json::Str(t) => Json::Str(t.clone()),
        Json::Array(items) => {
            let mut out: Vec<Json> = Vec::new();
            let mut i: usize = 0;
            while i < items.len()
                invariant
                    i <= items.len(),
                    *j is Array && j->Array_0 == *items,
                    jv_items(out@) == jv_items(items@.take(i as int)),
                decreases items.len() - i,
            {
                assert(decreases_to!(*j => j->Array_0));
                assert(decreases_to!(j->Array_0 => items@));
                assert(decreases_to!(items@ => items@[i as int]));
                assert(decreases_to!(*j => items@[i as int]));
                let c = copy_json(&items[i]);
                let ghost before = out@;
                out.push(c);
                proof {
                    lemma_jv_items_push(before, c);
                    lemma_jv_items_push(items@.take(i as int), items@[i as int]);
                    assert(items@.take(i + 1) =~= items@.take(i as int).push(items@[i as int]));
                }
                i = i + 1;
            }
            assert(items@.take(items.len() as int) =~= items@);
            Json::Array(out)
        },
        Json::Object(entries) => {
            let mut out: Vec<(String, Json)> = Vec::new();
            let mut i: usize = 0;
            while i < entries.len()
                invariant
                    i <= entries.len(),
                    *j is Object && j->Object_0 == *entries,
                    jv_entries(out@) == jv_entries(entries@.take(i as int)),
                decreases entries.len() - i,
            {
                assert(decreases_to!(*j => j->Object_0));
                assert(decreases_to!(j->Object_0 => entries@));
                assert(decreases_to!(entries@ => entries@[i as int]));
                assert(decreases_to!(entries@[i as int] => entries@[i as int].1));
                assert(decreases_to!(*j => entries@[i as int].1));
                let e = (entries[i].0.clone(), copy_json(&entries[i].1));
                let ghost before = out@;
                out.push(e);
                proof {
                    lemma_jv_entries_push(before, e);
                    lemma_jv_entries_push(entries@.take(i as int), entries@[i as int]);
                    assert(entries@.take(i + 1) =~= entries@.take(i as int).push(entries@[i as int]));
                }
                i = i + 1;
            }
            assert(entries@.take(entries.len() as int) =~= entries@);
            Json::Object(out)
        },
    }
}

impl Clone for Json {
    /// A deep copy: the same JSON value.
    fn clone(&self) -> (r: Json)
        ensures
            jv(r) == jv(*self),
    {
        copy_json(self)
    }
}

/// Lemma: the content of an object grows with its members.
pub proof fn lemma_jv_entries_push(entries: Seq<(String, Json)>, e: (String, Json))
    ensures
        jv_entries(entries.push(e)) == jv_entries(entries).push((e.0@, jv(e.1))),
{
    assert(entries.push(e).drop_last() =~= entries);
}

/// A `(key, value)` member of an object.
pub fn member(key: &str, value: Json) -> (r: (String, Json))
    ensures
        r.0@ == key@,
        r.1 == value,
{
    (crate::text::string_of(key), value)
}

/// A string value holding a copy of `s`.
pub fn jstr(s: &String) -> (r: Json)
    ensures
        jv(r) == JsonV::Str(s@),
{
    Json::Str(s.clone())
}

/// A string value holding `s`.
pub fn jstr_lit(s: &str) -> (r: Json)
    ensures
        jv(r) == JsonV::Str(s@),
{
    Json::Str(crate::text::string_of(s))
}

/// An optional string: the string, or `null` when absent.
pub open spec fn opt_str_jv(s: Option<String>) -> JsonV {
    match s {
        Some(v) => JsonV::Str(v@),
        None => JsonV::Null,
    }
}

pub fn jopt_str(s: &Option<String>) -> (r: Json)
    ensures
        jv(r) == opt_str_jv(*s),
{
    match s {
        Some(v) => Json::Str(v.clone()),
        None => Json::Null,
    }
}

/// An optional integer: the number, or `null` when absent.
pub open spec fn opt_u64_jv(v: Option<u64>) -> JsonV {
    match v {
        Some(n) => JsonV::U64(n),
        None => JsonV::Null,
    }
}

pub fn jopt_u64(v: Option<u64>) -> (r: Json)
    ensures
        jv(r) == opt_u64_jv(v),
{
    match v {
        Some(n) => Json::U64(n),
        None => Json::Null,
    }
}

/// An optional boolean: the boolean, or `null` when absent.
pub open spec fn opt_bool_jv(v: Option<bool>) -> JsonV {
    match v {
        Some(b) => JsonV::Bool(b),
        None => JsonV::Null,
    }
}

pub fn jopt_bool(v: Option<bool>) -> (r: Json)
    ensures
        jv(r) == opt_bool_jv(v),
{
    match v {
        Some(b) => Json::Bool(b),
        None => Json::Null,
    }
}

/// Appends a member to an object under construction.
pub fn push_member(entries: &mut Vec<(String, Json)>, key: &str, value: Json)
    ensures
        jv_entries(final(entries)@) == jv_entries(old(entries)@).push((key@, jv(value))),
{
    let m = member(key, value);
    proof {
        lemma_jv_entries_push(entries@, m);
    }
    entries.push(m);
}

/// Appends an element to an array under construction.
pub fn push_item(items: &mut Vec<Json>, value: Json)
    ensures
        jv_items(final(items)@) == jv_items(old(items)@).push(jv(value)),
{
    proof {
        lemma_jv_items_push(items@, value);
    }
    items.push(value);
}

/// The document every listing command emits: `{ timestamp, <key>: [...] }`.
pub open spec fn listing_jv(timestamp: Seq<char>, key: Seq<char>, items: Seq<JsonV>) -> JsonV {
    JsonV::Object(seq![("timestamp"@, JsonV::Str(timestamp)), (key, JsonV::Array(items))])
}

/// Builds `{ timestamp, <key>: items }`.
pub fn listing(timestamp: &String, key: &str, items: Vec<Json>) -> (r: Json)
    ensures
        jv(r) == listing_jv(timestamp@, key@, jv_items(items@)),
{
    let mut e: Vec<(String, Json)> = Vec::new();
    push_member(&mut e, "timestamp", jstr(timestamp));
    push_member(&mut e, key, Json::Array(items));
    assert(jv_entries(e@) =~= seq![("timestamp"@, JsonV::Str(timestamp@)), (key@, JsonV::Array(jv_items(items@)))]) by {
        assert(jv_entries(Seq::<(String, Json)>::empty()) =~= Seq::empty());
    }
    Json::Object(e)
}

proof fn lemma_pretty_items_len(items: Seq<Json>, ind: nat)
    ensures
        pretty_items(items, ind).len() == items.len(),
    decreases items.len(),
{
    if items.len() > 0 {
        lemma_pretty_items_len(items.drop_last(), ind);
    }
}

proof fn lemma_pretty_entries_len(entries: Seq<(String, Json)>, ind: nat)
    ensures
        pretty_entries(entries, ind).len() == entries.len(),
    decreases entries.len(),
{
    if entries.len() > 0 {
        lemma_pretty_entries_len(entries.drop_last(), ind);
    }
}

proof fn lemma_compact_items_len(items: Seq<Json>)
    ensures
        compact_items(items).len() == items.len(),
    decreases items.len(),
{
    if items.len() > 0 {
        lemma_compact_items_len(items.drop_last());
    }
}

proof fn lemma_compact_entries_len(entries: Seq<(String, Json)>)
    ensures
        compact_entries(entries).len() == entries.len(),
    decreases entries.len(),
{
    if entries.len() > 0 {
        lemma_compact_entries_len(entries.drop_last());
    }
}

} // verus!
