//! Small parsers for common native-command output formats.
use vstd::prelude::*;
use crate::text::{find, lemma_find, lemma_find_unique, slice, to_string};

verus! {

/// Length of the key at the start of `s`: the characters before the first
/// `=` or space.
pub open spec fn key_len(s: Seq<char>) -> nat
    decreases s.len(),
{
    if s.len() == 0 || s[0] == '=' || s[0] == ' ' {
        0
    } else {
        1 + key_len(s.drop_first())
    }
}

pub proof fn lemma_key_len(s: Seq<char>)
    ensures
        key_len(s) <= s.len(),
        forall|j: int| 0 <= j < key_len(s) ==> s[j] != '=' && s[j] != ' ',
        key_len(s) < s.len() ==> (s[key_len(s) as int] == '=' || s[key_len(s) as int] == ' '),
    decreases s.len(),
{
    if s.len() > 0 && s[0] != '=' && s[0] != ' ' {
        lemma_key_len(s.drop_first());
        assert forall|j: int| 0 <= j < key_len(s) implies s[j] != '=' && s[j] != ' ' by {
            if j > 0 {
                assert(s[j] == s.drop_first()[j - 1]);
            }
        }
        if key_len(s) < s.len() {
            assert(s[key_len(s) as int] == s.drop_first()[key_len(s) - 1]);
        }
    }
}

proof fn lemma_key_len_unique(s: Seq<char>, k: int)
    requires
        0 <= k <= s.len(),
        forall|j: int| 0 <= j < k ==> s[j] != '=' && s[j] != ' ',
        k < s.len() ==> (s[k] == '=' || s[k] == ' '),
    ensures
        key_len(s) == k,
{
    lemma_key_len(s);
    if key_len(s) < k {
        assert(s[key_len(s) as int] != '=' && s[key_len(s) as int] != ' ');
    }
    if k < key_len(s) {
        assert(s[k] != '=' && s[k] != ' ');
    }
}

/// The `KEY=value` pairs of `s`, in order of appearance: spaces separate
/// tokens; a value in double quotes runs to the closing quote (or the end),
/// an unquoted value runs to the next space; a token without `=` is skipped.
pub open spec fn kv_pairs(s: Seq<char>) -> Seq<(Seq<char>, Seq<char>)>
    decreases s.len(),
{
    if s.len() == 0 {
        seq![]
    } else if s[0] == ' ' {
        kv_pairs(s.drop_first())
    } else {
        let k = key_len(s) as int;
        proof {
            lemma_key_len(s);
        }
        if k == s.len() || s[k] == ' ' {
            kv_pairs(s.skip(k))
        } else {
            let key = s.take(k);
            let rest = s.skip(k + 1);
            if rest.len() > 0 && rest[0] == '"' {
                let body = rest.drop_first();
                proof {
                    lemma_find(body, '"');
                }
                match find(body, '"') {
                    Some(q) => seq![(key, body.take(q))] + kv_pairs(body.skip(q + 1)),
                    None => seq![(key, body)],
                }
            } else {
                proof {
                    lemma_find(rest, ' ');
                }
                match find(rest, ' ') {
                    Some(q) => seq![(key, rest.take(q))] + kv_pairs(rest.skip(q)),
                    None => seq![(key, rest)],
                }
            }
        }
    }
}

/// The text of parsed pairs.
pub open spec fn pairs_view(v: Seq<(String, String)>) -> Seq<(Seq<char>, Seq<char>)> {
    v.map_values(|p: (String, String)| (p.0@, p.1@))
}

proof fn lemma_skip_skip(s: Seq<char>, a: int, b: int)
    requires
        0 <= a,
        0 <= b,
        a + b <= s.len(),
    ensures
        s.skip(a).skip(b) == s.skip(a + b),
{
    assert(s.skip(a).skip(b) =~= s.skip(a + b));
}

/// Index of the first `c` in `s[from..]`, or `s.len()` if there is none.
fn find_from(s: &[char], from: usize, c: char) -> (r: usize)
    requires
        from <= s.len(),
    ensures
        from <= r <= s.len(),
        match find(s@.skip(from as int), c) {
            Some(q) => r == from + q,
            None => r == s.len(),
        },
{
    let mut i = from;
    while i < s.len() && s[i] != c
        invariant
            from <= i <= s.len(),
            forall|j: int| from <= j < i ==> s@[j] != c,
        decreases s.len() - i,
    {
        i = i + 1;
    }
    proof {
        let t = s@.skip(from as int);
        assert forall|j: int| 0 <= j < i - from implies t[j] != c by {
            assert(t[j] == s@[from + j]);
        }
        if i < s.len() {
            assert(t[i - from] == s@[i as int]);
        }
        lemma_find_unique(t, c, i - from);
    }
    i
}

/// The pairs contributed by one optional pair.
pub open spec fn opt_pair(p: Option<(String, String)>) -> Seq<(Seq<char>, Seq<char>)> {
    match p {
        Some(kv) => seq![(kv.0@, kv.1@)],
        None => seq![],
    }
}

/// The value text found in `body` when it ends at the first `stop`
/// character (or at the end), and what follows the value.
pub open spec fn value_in(body: Seq<char>, stop: char) -> Seq<char> {
    match find(body, stop) {
        Some(q) => body.take(q),
        None => body,
    }
}

/// Reads a value from `s[start..]` that ends before the first `stop`; returns
/// it with the position of that `stop` (or the end).
fn read_value(s: &[char], start: usize, stop: char) -> (r: (String, usize))
    requires
        start <= s.len(),
    ensures
        start <= r.1 <= s.len(),
        r.0@ == value_in(s@.skip(start as int), stop),
        match find(s@.skip(start as int), stop) {
            Some(q) => r.1 == start + q && r.1 < s.len(),
            None => r.1 == s.len(),
        },
{
    let j = find_from(s, start, stop);
    let v = to_string(&slice(s, start, j));
    proof {
        let body = s@.skip(start as int);
        lemma_find(body, stop);
        match find(body, stop) {
            Some(q) => {
                assert(body.take(q) =~= s@.subrange(start as int, j as int));
            },
            None => {
                assert(body =~= s@.subrange(start as int, j as int));
            },
        }
    }
    (v, j)
}

/// Lemma: unfolding `kv_pairs` at a token that holds `=` after its key.
proof fn lemma_kv_pair_token(t: Seq<char>, k: int)
    requires
        t.len() > 0,
        t[0] != ' ',
        key_len(t) == k,
        k < t.len(),
        t[k] == '=',
    ensures
        kv_pairs(t) == ({
            let key = t.take(k);
            let rest = t.skip(k + 1);
            if rest.len() > 0 && rest[0] == '"' {
                let body = rest.drop_first();
                match find(body, '"') {
                    Some(q) => seq![(key, body.take(q))] + kv_pairs(body.skip(q + 1)),
                    None => seq![(key, body)],
                }
            } else {
                match find(rest, ' ') {
                    Some(q) => seq![(key, rest.take(q))] + kv_pairs(rest.skip(q)),
                    None => seq![(key, rest)],
                }
            }
        }),
{
}

/// Lemma: unfolding `kv_pairs` at a token without `=` after its key.
proof fn lemma_kv_bad_token(t: Seq<char>, k: int)
    requires
        t.len() > 0,
        t[0] != ' ',
        key_len(t) == k,
        k == t.len() || t[k] == ' ',
    ensures
        kv_pairs(t) == kv_pairs(t.skip(k)),
{
}

/// One token of `s[i..]` (which does not start with a space): the pair it
/// holds, if any, and where the next token search resumes.
#[verifier::rlimit(30)]
fn kv_token(s: &[char], i: usize) -> (r: (Option<(String, String)>, usize))
    requires
        i < s.len(),
        s@[i as int] != ' ',
    ensures
        i < r.1 <= s.len(),
        kv_pairs(s@.skip(i as int)) == opt_pair(r.0) + kv_pairs(s@.skip(r.1 as int)),
{
    let n = s.len();
    let ghost t = s@.skip(i as int);
    assert(t[0] == s@[i as int]);
    let key_start = i;
    let mut i = i;
    while i < n && s[i] != '=' && s[i] != ' '
        invariant
            n == s.len(),
            key_start <= i <= n,
            forall|j: int| key_start <= j < i ==> s@[j] != '=' && s@[j] != ' ',
        decreases n - i,
    {
        i = i + 1;
    }
    let ghost k = i - key_start;
    proof {
        assert forall|j: int| 0 <= j < k implies t[j] != '=' && t[j] != ' ' by {
            assert(t[j] == s@[key_start + j]);
        }
        if i < n {
            assert(t[k] == s@[i as int]);
        }
        lemma_key_len_unique(t, k);
        lemma_skip_skip(s@, key_start as int, k);
    }
    if i >= n || s[i] != '=' {
        // Malformed token: `i` already stands at the next space or the end.
        proof {
            lemma_kv_bad_token(t, k);
        }
        assert(opt_pair(None) + kv_pairs(s@.skip(i as int)) =~= kv_pairs(s@.skip(i as int)));
        return (None, i);
    }
    let key = to_string(&slice(s, key_start, i));
    assert(key@ =~= t.take(k));
    proof {
        lemma_kv_pair_token(t, k);
        lemma_skip_skip(s@, key_start as int, k + 1);
    }
    i = i + 1;
    let ghost rest = s@.skip(i as int);
    assert(t.skip(k + 1) == rest);
    if i < n && s[i] == '"' {
        let start = i + 1;
        proof {
            assert(rest.drop_first() =~= s@.skip(start as int));
        }
        let (v, j) = read_value(s, start, '"');
        let ghost body = s@.skip(start as int);
        let next = if j < n {
            j + 1
        } else {
            j
        };
        proof {
            match find(body, '"') {
                Some(q) => {
                    lemma_skip_skip(s@, start as int, q + 1);
                },
                None => {
                    assert(s@.skip(next as int) =~= Seq::<char>::empty());
                    assert(seq![(key@, v@)] + kv_pairs(s@.skip(next as int)) =~= seq![(key@, v@)]);
                },
            }
            assert(opt_pair(Some((key, v))) == seq![(key@, v@)]);
        }
        (Some((key, v)), next)
    } else {
        let start = i;
        let (v, j) = read_value(s, start, ' ');
        proof {
            match find(rest, ' ') {
                Some(q) => {
                    lemma_skip_skip(s@, start as int, q);
                },
                None => {
                    assert(s@.skip(j as int) =~= Seq::<char>::empty());
                    assert(seq![(key@, v@)] + kv_pairs(s@.skip(j as int)) =~= seq![(key@, v@)]);
                },
            }
            assert(opt_pair(Some((key, v))) == seq![(key@, v@)]);
        }
        (Some((key, v)), j)
    }
}

/// Parse a line of `KEY="value"` pairs as emitted by tools like `lsblk -P`.
///
/// Quoted values may contain spaces; unquoted values run to the next space.
/// Pairs are returned in order of appearance.
pub fn key_value_pairs(line: &str) -> (r: Vec<(String, String)>)
    ensures
        pairs_view(r@) == kv_pairs(line@),
{
    let s = crate::text::chars_of(line);
    let n = s.len();
    let mut pairs: Vec<(String, String)> = Vec::new();
    let mut i: usize = 0;
    assert(s@.skip(0) =~= s@);
    while i < n
        invariant
            n == s.len(),
            i <= n,
            pairs_view(pairs@) + kv_pairs(s@.skip(i as int)) == kv_pairs(s@),
        decreases n - i,
    {
        if s[i] == ' ' {
            assert(s@.skip(i as int).drop_first() =~= s@.skip(i + 1));
            i = i + 1;
        } else {
            let (p, j) = kv_token(&s, i);
            let ghost old_p = pairs@;
            match p {
                Some(kv) => {
                    pairs.push(kv);
                },
                None => {},
            }
            assert(pairs_view(pairs@) =~= pairs_view(old_p) + opt_pair(p));
            i = j;
        }
    }
    assert(s@.skip(n as int) =~= Seq::<char>::empty());
    assert(pairs_view(pairs@) + Seq::empty() =~= pairs_view(pairs@));
    pairs
}

/// All pairs of all lines, in order.
pub open spec fn pairs_in_lines(ls: Seq<Seq<char>>) -> Seq<(Seq<char>, Seq<char>)>
    decreases ls.len(),
{
    if ls.len() == 0 {
        seq![]
    } else {
        pairs_in_lines(ls.drop_last()) + kv_pairs(ls.last())
    }
}

/// The value of the last pair with key `k`, if any: later assignments win.
pub open spec fn last_value(ps: Seq<(Seq<char>, Seq<char>)>, k: Seq<char>) -> Option<Seq<char>>
    decreases ps.len(),
{
    if ps.len() == 0 {
        None
    } else if ps.last().0 == k {
        Some(ps.last().1)
    } else {
        last_value(ps.drop_last(), k)
    }
}

/// The last value assigned to `k`, or the empty text.
pub open spec fn last_value_or_empty(ps: Seq<(Seq<char>, Seq<char>)>, k: Seq<char>) -> Seq<char> {
    match last_value(ps, k) {
        Some(v) => v,
        None => seq![],
    }
}

/// Lemma: how `last_value` sees one more pair.
pub proof fn lemma_last_value_push(ps: Seq<(Seq<char>, Seq<char>)>, p: (Seq<char>, Seq<char>), k: Seq<char>)
    ensures
        last_value(ps.push(p), k) == if p.0 == k {
            Some(p.1)
        } else {
            last_value(ps, k)
        },
{
    assert(ps.push(p).drop_last() =~= ps);
}

/// `KEY="value"` for one pair.
pub open spec fn kv_token_text(p: (Seq<char>, Seq<char>)) -> Seq<char> {
    p.0 + seq!['=', '"'] + p.1 + seq!['"']
}

/// A line of `KEY="value"` tokens separated by single spaces, as `lsblk -P`
/// writes them.
pub open spec fn kv_line(ps: Seq<(Seq<char>, Seq<char>)>) -> Seq<char>
    decreases ps.len(),
{
    if ps.len() == 0 {
        seq![]
    } else if ps.len() == 1 {
        kv_token_text(ps[0])
    } else {
        kv_token_text(ps[0]) + seq![' '] + kv_line(ps.drop_first())
    }
}

/// A pair that `kv_line` writes unambiguously: the key holds no `=` or space,
/// the value no double quote.
pub open spec fn writable_pair(p: (Seq<char>, Seq<char>)) -> bool {
    &&& forall|i: int| 0 <= i < p.0.len() ==> p.0[i] != '=' && p.0[i] != ' '
    &&& forall|i: int| 0 <= i < p.1.len() ==> p.1[i] != '"'
}

proof fn lemma_kv_one(p: (Seq<char>, Seq<char>), tail: Seq<char>)
    requires
        writable_pair(p),
        tail.len() == 0 || tail[0] == ' ',
    ensures
        kv_pairs(kv_token_text(p) + tail) == seq![p] + kv_pairs(tail),
{
    let s = kv_token_text(p) + tail;
    let k = p.0.len() as int;
    assert(s[k] == '=');
    assert forall|j: int| 0 <= j < k implies s[j] != '=' && s[j] != ' ' by {
        assert(s[j] == p.0[j]);
    }
    lemma_key_len_unique(s, k);
    assert(s[0] != ' ');
    let rest = s.skip(k + 1);
    assert(rest[0] == '"');
    let body = rest.drop_first();
    assert(body =~= p.1 + seq!['"'] + tail);
    assert forall|j: int| 0 <= j < p.1.len() implies body[j] != '"' by {
        assert(body[j] == p.1[j]);
    }
    assert(body[p.1.len() as int] == '"');
    lemma_find_unique(body, '"', p.1.len() as int);
    assert(body.take(p.1.len() as int) =~= p.1);
    assert(body.skip(p.1.len() as int + 1) =~= tail);
    assert(s.take(k) =~= p.0);
}

/// Law: a line written as `KEY="value"` tokens separated by spaces parses
/// back to the same pairs, in the same order.
pub proof fn lemma_kv_line_roundtrip(ps: Seq<(Seq<char>, Seq<char>)>)
    requires
        forall|i: int| 0 <= i < ps.len() ==> writable_pair(#[trigger] ps[i]),
    ensures
        kv_pairs(kv_line(ps)) == ps,
    decreases ps.len(),
{
    if ps.len() == 0 {
    } else if ps.len() == 1 {
        assert(writable_pair(ps[0]));
        lemma_kv_one(ps[0], seq![]);
        assert(kv_token_text(ps[0]) + Seq::<char>::empty() =~= kv_token_text(ps[0]));
        assert(seq![ps[0]] + Seq::<(Seq<char>, Seq<char>)>::empty() =~= ps);
    } else {
        let rest = ps.drop_first();
        assert forall|i: int| 0 <= i < rest.len() implies writable_pair(#[trigger] rest[i]) by {
            assert(rest[i] == ps[i + 1]);
        }
        lemma_kv_line_roundtrip(rest);
        assert(writable_pair(ps[0]));
        let tail = seq![' '] + kv_line(rest);
        lemma_kv_one(ps[0], tail);
        assert(kv_token_text(ps[0]) + seq![' '] + kv_line(rest) =~= kv_token_text(ps[0]) + tail);
        assert(tail.drop_first() =~= kv_line(rest));
        assert(seq![ps[0]] + rest =~= ps);
    }
}

} // verus!
