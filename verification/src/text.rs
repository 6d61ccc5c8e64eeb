//! Character-level text primitives with their mathematical models.
//!
//! Text is modelled as `Seq<char>`. Each executable helper works on
//! `&[char]` (or `&str` at the edges) and is specified against a spec
//! function over sequences that mirrors the meaning of the corresponding
//! `str` method of the standard library.
use vstd::prelude::*;

verus! {

/// The `White_Space` property of Unicode, as used by `char::is_whitespace`
/// (and therefore by `str::trim` and `str::split_whitespace`).
pub open spec fn is_ws(c: char) -> bool {
    ||| ('\u{9}' <= c && c <= '\u{d}')
    ||| c == ' '
    ||| c == '\u{85}'
    ||| c == '\u{a0}'
    ||| c == '\u{1680}'
    ||| ('\u{2000}' <= c && c <= '\u{200a}')
    ||| c == '\u{2028}'
    ||| c == '\u{2029}'
    ||| c == '\u{202f}'
    ||| c == '\u{205f}'
    ||| c == '\u{3000}'
}

pub open spec fn is_digit(c: char) -> bool {
    '0' <= c && c <= '9'
}

pub open spec fn is_alnum(c: char) -> bool {
    ||| is_digit(c)
    ||| ('a' <= c && c <= 'z')
    ||| ('A' <= c && c <= 'Z')
}

/// `char::to_ascii_lowercase`.
pub open spec fn lower(c: char) -> char {
    if 'A' <= c && c <= 'Z' {
        ((c as u32) + 32) as char
    } else {
        c
    }
}

/// `str::trim_start`.
pub open spec fn trim_start(s: Seq<char>) -> Seq<char>
    decreases s.len(),
{
    if s.len() > 0 && is_ws(s[0]) {
        trim_start(s.drop_first())
    } else {
        s
    }
}

/// `str::trim_end`.
pub open spec fn trim_end(s: Seq<char>) -> Seq<char>
    decreases s.len(),
{
    if s.len() > 0 && is_ws(s.last()) {
        trim_end(s.drop_last())
    } else {
        s
    }
}

/// `str::trim`.
pub open spec fn trim(s: Seq<char>) -> Seq<char> {
    trim_end(trim_start(s))
}

/// Index of the first occurrence of `c` in `s` (`str::find` with a `char`).
pub open spec fn find(s: Seq<char>, c: char) -> Option<int>
    decreases s.len(),
{
    if s.len() == 0 {
        None
    } else if s[0] == c {
        Some(0)
    } else {
        match find(s.drop_first(), c) {
            Some(i) => Some(i + 1),
            None => None,
        }
    }
}

/// `str::split_once` with a `char` delimiter.
pub open spec fn split_once(s: Seq<char>, c: char) -> Option<(Seq<char>, Seq<char>)> {
    match find(s, c) {
        Some(i) => Some((s.take(i), s.skip(i + 1))),
        None => None,
    }
}

/// `str::strip_prefix`.
pub open spec fn strip_prefix(s: Seq<char>, p: Seq<char>) -> Option<Seq<char>> {
    if p.is_prefix_of(s) {
        Some(s.skip(p.len() as int))
    } else {
        None
    }
}

/// `str::strip_suffix`.
pub open spec fn strip_suffix(s: Seq<char>, p: Seq<char>) -> Option<Seq<char>> {
    if p.is_suffix_of(s) {
        Some(s.take(s.len() - p.len()))
    } else {
        None
    }
}

/// Whether `p` occurs in `s` at position `i`.
pub open spec fn occurs_at(s: Seq<char>, p: Seq<char>, i: int) -> bool {
    0 <= i && i + p.len() <= s.len() && s.subrange(i, i + p.len()) == p
}

/// `str::contains` with a string pattern.
pub open spec fn contains(s: Seq<char>, p: Seq<char>) -> bool {
    exists|i: int| occurs_at(s, p, i)
}

/// The views of a sequence of character vectors.
pub open spec fn views(v: Seq<Vec<char>>) -> Seq<Seq<char>> {
    v.map_values(|x: Vec<char>| x@)
}

/// Lemma: first-occurrence characterisation of `find`.
pub proof fn lemma_find(s: Seq<char>, c: char)
    ensures
        match find(s, c) {
            Some(i) => 0 <= i < s.len() && s[i] == c && forall|j: int| 0 <= j < i ==> s[j] != c,
            None => forall|j: int| 0 <= j < s.len() ==> s[j] != c,
        },
    decreases s.len(),
{
    if s.len() > 0 && s[0] != c {
        lemma_find(s.drop_first(), c);
        match find(s.drop_first(), c) {
            Some(i) => {
                assert forall|j: int| 0 <= j < i + 1 implies s[j] != c by {
                    if j > 0 {
                        assert(s[j] == s.drop_first()[j - 1]);
                    }
                }
            },
            None => {
                assert forall|j: int| 0 <= j < s.len() implies s[j] != c by {
                    if j > 0 {
                        assert(s[j] == s.drop_first()[j - 1]);
                    }
                }
            },
        }
    }
}

/// Lemma: `find` is determined by the first-occurrence property.
pub proof fn lemma_find_unique(s: Seq<char>, c: char, i: int)
    requires
        0 <= i <= s.len(),
        forall|j: int| 0 <= j < i ==> s[j] != c,
        i < s.len() ==> s[i] == c,
    ensures
        find(s, c) == (if i < s.len() { Some(i) } else { None::<int> }),
{
    lemma_find(s, c);
    match find(s, c) {
        Some(k) => {
            if k < i {
                assert(s[k] != c);
            }
            if i < k {
                assert(s[i] != c);
            }
        },
        None => {
            if i < s.len() {
                assert(s[i] != c);
            }
        },
    }
}

/// Builds a `String` holding exactly the characters of `s`.
pub fn to_string(s: &[char]) -> (r: String)
    ensures
        r@ == s@,
{
    let mut r = String::new();
    let mut i: usize = 0;
    while i < s.len()
        invariant
            i <= s.len(),
            r@ == s@.take(i as int),
        decreases s.len() - i,
    {
        push_char(&mut r, s[i]);
        assert(s@.take(i as int).push(s@[i as int]) =~= s@.take(i + 1));
        i = i + 1;
    }
    assert(s@.take(s.len() as int) =~= s@);
    r
}

/// Appends one character to a `String` (`String::push`).
#[verifier::external_body]
pub(crate) fn push_char(s: &mut String, c: char)
    ensures
        final(s)@ == old(s)@.push(c),
{
    s.push(c);
}

/// The characters of `s`, in order.
pub fn chars_of(s: &str) -> (r: Vec<char>)
    ensures
        r@ == s@,
{
    let mut r: Vec<char> = Vec::new();
    for c in it: s.chars()
        invariant
            it.seq() == s@,
            r@ == s@.take(it.index() as int),
    {
        r.push(c);
    }
    r
}

/// The characters of a `String`, in order.
pub fn chars_of_string(s: &String) -> (r: Vec<char>)
    ensures
        r@ == s@,
{
    chars_of(s.as_str())
}

/// Appends the characters of `p` to `v`.
pub fn extend(v: &mut Vec<char>, p: &[char])
    ensures
        final(v)@ == old(v)@ + p@,
{
    let mut i: usize = 0;
    while i < p.len()
        invariant
            i <= p.len(),
            v@ == old(v)@ + p@.take(i as int),
        decreases p.len() - i,
    {
        v.push(p[i]);
        assert(old(v)@ + p@.take(i + 1) =~= old(v)@ + p@.take(i as int) + seq![p@[i as int]]);
        i = i + 1;
    }
    assert(p@.take(p.len() as int) =~= p@);
}

/// Appends the characters of a `&str` to `v`.
pub fn extend_str(v: &mut Vec<char>, p: &str)
    ensures
        final(v)@ == old(v)@ + p@,
{
    let c = chars_of(p);
    extend(v, &c);
}

/// The characters `s[a..b]`.
pub fn slice(s: &[char], a: usize, b: usize) -> (r: Vec<char>)
    requires
        a <= b <= s.len(),
    ensures
        r@ == s@.subrange(a as int, b as int),
{
    let mut r: Vec<char> = Vec::new();
    let mut i: usize = a;
    while i < b
        invariant
            a <= i <= b <= s.len(),
            r@ == s@.subrange(a as int, i as int),
        decreases b - i,
    {
        r.push(s[i]);
        assert(s@.subrange(a as int, i + 1) =~= s@.subrange(a as int, i as int).push(s@[i as int]));
        i = i + 1;
    }
    r
}

/// Sequence equality of two character slices.
pub fn eq(a: &[char], b: &[char]) -> (r: bool)
    ensures
        r == (a@ == b@),
{
    if a.len() != b.len() {
        return false;
    }
    let mut i: usize = 0;
    while i < a.len()
        invariant
            a.len() == b.len(),
            i <= a.len(),
            forall|j: int| 0 <= j < i ==> a@[j] == b@[j],
        decreases a.len() - i,
    {
        if a[i] != b[i] {
            return false;
        }
        i = i + 1;
    }
    assert(a@ =~= b@);
    true
}

/// Whether `s` equals the literal `lit`.
pub fn eq_str(s: &[char], lit: &str) -> (r: bool)
    ensures
        r == (s@ == lit@),
{
    let l = chars_of(lit);
    eq(s, &l)
}

/// Whether `p` occurs in `s` at position `i`.
pub fn occurs_at_exec(s: &[char], p: &[char], i: usize) -> (r: bool)
    ensures
        r == occurs_at(s@, p@, i as int),
{
    if i > s.len() || p.len() > s.len() - i {
        return false;
    }
    let mut j: usize = 0;
    while j < p.len()
        invariant
            i + p.len() <= s.len(),
            j <= p.len(),
            forall|k: int| 0 <= k < j ==> s@[i + k] == p@[k],
        decreases p.len() - j,
    {
        if s[i + j] != p[j] {
            assert(s@.subrange(i as int, i + p.len())[j as int] != p@[j as int]);
            return false;
        }
        j = j + 1;
    }
    assert(s@.subrange(i as int, i + p.len()) =~= p@);
    true
}

/// `str::starts_with`.
pub fn starts_with(s: &[char], p: &[char]) -> (r: bool)
    ensures
        r == p@.is_prefix_of(s@),
{
    let r = occurs_at_exec(s, p, 0);
    proof {
        if r {
            assert(s@.subrange(0, p@.len() as int) == p@);
            assert forall|k: int| 0 <= k < p@.len() implies p@[k] == s@[k] by {
                assert(s@.subrange(0, p@.len() as int)[k] == s@[k]);
            }
        } else if p@.is_prefix_of(s@) {
            assert(s@.subrange(0, p@.len() as int) =~= p@);
        }
    }
    r
}

/// `str::starts_with` with a literal.
pub fn starts_with_str(s: &[char], p: &str) -> (r: bool)
    ensures
        r == p@.is_prefix_of(s@),
{
    let l = chars_of(p);
    starts_with(s, &l)
}

/// `str::ends_with`.
pub fn ends_with(s: &[char], p: &[char]) -> (r: bool)
    ensures
        r == p@.is_suffix_of(s@),
{
    if p.len() > s.len() {
        return false;
    }
    let r = occurs_at_exec(s, p, s.len() - p.len());
    proof {
        let k0 = s@.len() - p@.len();
        if r {
            assert forall|k: int| 0 <= k < p@.len() implies p@[k] == s@[k0 + k] by {
                assert(s@.subrange(k0, k0 + p@.len())[k] == s@[k0 + k]);
            }
        } else if p@.is_suffix_of(s@) {
            assert(s@.subrange(k0, k0 + p@.len()) =~= p@);
        }
    }
    r
}

/// `str::strip_prefix`.
pub fn strip_prefix_exec(s: &[char], p: &str) -> (r: Option<Vec<char>>)
    ensures
        match strip_prefix(s@, p@) {
            Some(t) => r is Some && r->0@ == t,
            None => r is None,
        },
{
    let l = chars_of(p);
    if starts_with(s, &l) {
        Some(slice(s, l.len(), s.len()))
    } else {
        None
    }
}

/// `str::strip_suffix`.
pub fn strip_suffix_exec(s: &[char], p: &str) -> (r: Option<Vec<char>>)
    ensures
        match strip_suffix(s@, p@) {
            Some(t) => r is Some && r->0@ == t,
            None => r is None,
        },
{
    let l = chars_of(p);
    if ends_with(s, &l) {
        Some(slice(s, 0, s.len() - l.len()))
    } else {
        None
    }
}

/// Index of the first occurrence of `c` in `s`.
pub fn find_exec(s: &[char], c: char) -> (r: Option<usize>)
    ensures
        match find(s@, c) {
            Some(i) => r == Some(i as usize),
            None => r is None,
        },
        r matches Some(i) ==> i < s.len() && s@[i as int] == c,
{
    let mut i: usize = 0;
    while i < s.len()
        invariant
            i <= s.len(),
            forall|j: int| 0 <= j < i ==> s@[j] != c,
        decreases s.len() - i,
    {
        if s[i] == c {
            proof {
                lemma_find_unique(s@, c, i as int);
            }
            return Some(i);
        }
        i = i + 1;
    }
    proof {
        lemma_find_unique(s@, c, i as int);
    }
    None
}

/// `str::split_once` with a `char` delimiter.
pub fn split_once_exec(s: &[char], c: char) -> (r: Option<(Vec<char>, Vec<char>)>)
    ensures
        match split_once(s@, c) {
            Some((a, b)) => r is Some && (r->0).0@ == a && (r->0).1@ == b,
            None => r is None,
        },
{
    proof {
        lemma_find(s@, c);
    }
    match find_exec(s, c) {
        Some(i) => Some((slice(s, 0, i), slice(s, i + 1, s.len()))),
        None => None,
    }
}

/// Lemma: stripping leading whitespace from a suffix.
proof fn lemma_trim_start_skip(s: Seq<char>, i: int)
    requires
        0 <= i <= s.len(),
        forall|j: int| 0 <= j < i ==> is_ws(s[j]),
    ensures
        trim_start(s) == trim_start(s.skip(i)),
    decreases i,
{
    if i > 0 {
        assert(s.drop_first().skip(i - 1) =~= s.skip(i));
        lemma_trim_start_skip(s.drop_first(), i - 1);
    } else {
        assert(s.skip(0) =~= s);
    }
}

/// Lemma: stripping trailing whitespace from a prefix.
proof fn lemma_trim_end_take(s: Seq<char>, i: int)
    requires
        0 <= i <= s.len(),
        forall|j: int| i <= j < s.len() ==> is_ws(s[j]),
    ensures
        trim_end(s) == trim_end(s.take(i)),
    decreases s.len() - i,
{
    if i < s.len() {
        assert(s.drop_last().take(i) =~= s.take(i));
        lemma_trim_end_take(s.drop_last(), i);
    } else {
        assert(s.take(i) =~= s);
    }
}

/// Position of the first non-whitespace character at or after `from`.
pub fn skip_ws(s: &[char], from: usize) -> (r: usize)
    requires
        from <= s.len(),
    ensures
        from <= r <= s.len(),
        forall|j: int| from <= j < r ==> is_ws(s@[j]),
        r < s.len() ==> !is_ws(s@[r as int]),
        trim_start(s@.skip(from as int)) == s@.skip(r as int),
{
    let mut i = from;
    while i < s.len() && is_ws_exec(s[i])
        invariant
            from <= i <= s.len(),
            forall|j: int| from <= j < i ==> is_ws(s@[j]),
        decreases s.len() - i,
    {
        i = i + 1;
    }
    proof {
        let t = s@.skip(from as int);
        assert forall|j: int| 0 <= j < i - from implies is_ws(t[j]) by {
            assert(t[j] == s@[from + j]);
        }
        lemma_trim_start_skip(t, i - from);
        assert(t.skip(i - from) =~= s@.skip(i as int));
    }
    i
}

/// `str::trim_start`.
pub fn trim_start_exec(s: &[char]) -> (r: Vec<char>)
    ensures
        r@ == trim_start(s@),
{
    let i = skip_ws(s, 0);
    assert(s@.skip(0) =~= s@);
    assert(s@.skip(i as int) =~= s@.subrange(i as int, s@.len() as int));
    slice(s, i, s.len())
}

/// End of `s[..to]` once trailing whitespace is removed.
pub fn trim_end_pos(s: &[char], to: usize) -> (r: usize)
    requires
        to <= s.len(),
    ensures
        r <= to,
        trim_end(s@.take(to as int)) == s@.take(r as int),
        r > 0 ==> !is_ws(s@[r - 1]),
{
    let mut j = to;
    while j > 0 && is_ws_exec(s[j - 1])
        invariant
            j <= to <= s.len(),
            forall|k: int| j <= k < to ==> is_ws(s@[k]),
        decreases j,
    {
        j = j - 1;
    }
    proof {
        let t = s@.take(to as int);
        lemma_trim_end_take(t, j as int);
        assert(t.take(j as int) =~= s@.take(j as int));
        if j > 0 {
            assert(s@.take(j as int).last() == s@[j - 1]);
        } else {
            assert(s@.take(0) =~= Seq::<char>::empty());
        }
    }
    j
}

/// `str::trim_end`.
pub fn trim_end_exec(s: &[char]) -> (r: Vec<char>)
    ensures
        r@ == trim_end(s@),
{
    let j = trim_end_pos(s, s.len());
    assert(s@.take(s@.len() as int) =~= s@);
    assert(s@.take(j as int) =~= s@.subrange(0, j as int));
    slice(s, 0, j)
}

/// `str::trim`.
pub fn trim_exec(s: &[char]) -> (r: Vec<char>)
    ensures
        r@ == trim(s@),
{
    let t = trim_start_exec(s);
    trim_end_exec(&t)
}

/// `char::is_whitespace`.
pub fn is_ws_exec(c: char) -> (r: bool)
    ensures
        r == is_ws(c),
{
    ('\u{9}' <= c && c <= '\u{d}') || c == ' ' || c == '\u{85}' || c == '\u{a0}' || c
        == '\u{1680}' || ('\u{2000}' <= c && c <= '\u{200a}') || c == '\u{2028}' || c
        == '\u{2029}' || c == '\u{202f}' || c == '\u{205f}' || c == '\u{3000}'
}

/// `char::is_ascii_digit`.
pub fn is_digit_exec(c: char) -> (r: bool)
    ensures
        r == is_digit(c),
{
    '0' <= c && c <= '9'
}

/// `char::is_ascii_alphanumeric`.
pub fn is_alnum_exec(c: char) -> (r: bool)
    ensures
        r == is_alnum(c),
{
    ('0' <= c && c <= '9') || ('a' <= c && c <= 'z') || ('A' <= c && c <= 'Z')
}


/// Drops one trailing carriage return.
pub open spec fn strip_cr(s: Seq<char>) -> Seq<char> {
    if s.len() > 0 && s.last() == '\r' {
        s.drop_last()
    } else {
        s
    }
}

/// The lines of `s[..]` after the partial line `cur`; see [`lines`].
pub open spec fn lines_from(s: Seq<char>, cur: Seq<char>) -> Seq<Seq<char>>
    decreases s.len(),
{
    if s.len() == 0 {
        if cur.len() > 0 {
            seq![cur]
        } else {
            seq![]
        }
    } else if s[0] == '\n' {
        seq![strip_cr(cur)] + lines_from(s.drop_first(), seq![])
    } else {
        lines_from(s.drop_first(), cur.push(s[0]))
    }
}

/// `str::lines`: pieces separated by `\n`, each with one trailing `\r`
/// removed; a final line ending is optional and an empty text has no lines.
pub open spec fn lines(s: Seq<char>) -> Seq<Seq<char>> {
    lines_from(s, seq![])
}

/// The whitespace-separated tokens of `s` after the partial token `cur`.
pub open spec fn words_from(s: Seq<char>, cur: Seq<char>) -> Seq<Seq<char>>
    decreases s.len(),
{
    if s.len() == 0 {
        if cur.len() > 0 {
            seq![cur]
        } else {
            seq![]
        }
    } else if is_ws(s[0]) {
        (if cur.len() > 0 {
            seq![cur]
        } else {
            seq![]
        }) + words_from(s.drop_first(), seq![])
    } else {
        words_from(s.drop_first(), cur.push(s[0]))
    }
}

/// `str::split_whitespace`: the maximal runs of non-whitespace characters.
pub open spec fn words(s: Seq<char>) -> Seq<Seq<char>> {
    words_from(s, seq![])
}

/// The pieces of `s` split at `c`, at most `n` of them, after the partial
/// piece `cur`; see [`splitn`].
pub open spec fn splitn_from(s: Seq<char>, n: nat, c: char, cur: Seq<char>) -> Seq<Seq<char>>
    decreases s.len(),
{
    if s.len() == 0 {
        seq![cur]
    } else if n <= 1 {
        seq![cur + s]
    } else if s[0] == c {
        seq![cur] + splitn_from(s.drop_first(), (n - 1) as nat, c, seq![])
    } else {
        splitn_from(s.drop_first(), n, c, cur.push(s[0]))
    }
}

/// `str::splitn(n, c)` for `n >= 1`: at most `n` pieces, the last one holding
/// the rest of the text.
pub open spec fn splitn(s: Seq<char>, n: nat, c: char) -> Seq<Seq<char>> {
    splitn_from(s, n, c, seq![])
}

/// The pieces of `s` split at every `c`, after the partial piece `cur`.
pub open spec fn split_from(s: Seq<char>, c: char, cur: Seq<char>) -> Seq<Seq<char>>
    decreases s.len(),
{
    if s.len() == 0 {
        seq![cur]
    } else if s[0] == c {
        seq![cur] + split_from(s.drop_first(), c, seq![])
    } else {
        split_from(s.drop_first(), c, cur.push(s[0]))
    }
}

/// `str::split(c)`: all pieces between occurrences of `c`.
pub open spec fn split(s: Seq<char>, c: char) -> Seq<Seq<char>> {
    split_from(s, c, seq![])
}

/// `[T]::join`: the parts with `sep` between neighbours.
pub open spec fn join(parts: Seq<Seq<char>>, sep: Seq<char>) -> Seq<char>
    decreases parts.len(),
{
    if parts.len() == 0 {
        seq![]
    } else if parts.len() == 1 {
        parts[0]
    } else {
        join(parts.drop_last(), sep) + sep + parts.last()
    }
}

/// Lemma: how `join` grows by one part.
pub proof fn lemma_join_push(parts: Seq<Seq<char>>, sep: Seq<char>, p: Seq<char>)
    ensures
        join(parts.push(p), sep) == if parts.len() == 0 {
            p
        } else {
            join(parts, sep) + sep + p
        },
{
    assert(parts.push(p).drop_last() =~= parts);
}

/// Lemma: one step of `lines_from`.
proof fn lemma_lines_step(s: Seq<char>, i: int, cur: Seq<char>)
    requires
        0 <= i < s.len(),
    ensures
        lines_from(s.skip(i), cur) == if s[i] == '\n' {
            seq![strip_cr(cur)] + lines_from(s.skip(i + 1), seq![])
        } else {
            lines_from(s.skip(i + 1), cur.push(s[i]))
        },
{
    assert(s.skip(i).drop_first() =~= s.skip(i + 1));
}

/// `str::lines`.
pub fn lines_exec(s: &[char]) -> (r: Vec<Vec<char>>)
    ensures
        views(r@) == lines(s@),
{
    let mut r: Vec<Vec<char>> = Vec::new();
    let mut cur: Vec<char> = Vec::new();
    let mut i: usize = 0;
    assert(s@.skip(0) =~= s@);
    while i < s.len()
        invariant
            i <= s.len(),
            views(r@) + lines_from(s@.skip(i as int), cur@) == lines(s@),
        decreases s.len() - i,
    {
        proof {
            lemma_lines_step(s@, i as int, cur@);
        }
        if s[i] == '\n' {
            let mut line = cur;
            if line.len() > 0 && line[line.len() - 1] == '\r' {
                line.pop();
            }
            assert(line@ == strip_cr(cur@));
            let ghost old_r = r@;
            r.push(line);
            assert(views(r@) =~= views(old_r) + seq![strip_cr(cur@)]);
            cur = Vec::new();
        } else {
            cur.push(s[i]);
        }
        i = i + 1;
    }
    if cur.len() > 0 {
        let ghost old_r = r@;
        let ghost c = cur@;
        r.push(cur);
        assert(views(r@) =~= views(old_r) + seq![c]);
    } else {
        assert(views(r@) =~= views(r@) + Seq::<Seq<char>>::empty());
    }
    r
}

/// Lemma: one step of `words_from`.
proof fn lemma_words_step(s: Seq<char>, i: int, cur: Seq<char>)
    requires
        0 <= i < s.len(),
    ensures
        words_from(s.skip(i), cur) == if is_ws(s[i]) {
            (if cur.len() > 0 {
                seq![cur]
            } else {
                seq![]
            }) + words_from(s.skip(i + 1), seq![])
        } else {
            words_from(s.skip(i + 1), cur.push(s[i]))
        },
{
    assert(s.skip(i).drop_first() =~= s.skip(i + 1));
}

/// `str::split_whitespace`.
pub fn words_exec(s: &[char]) -> (r: Vec<Vec<char>>)
    ensures
        views(r@) == words(s@),
{
    let mut r: Vec<Vec<char>> = Vec::new();
    let mut cur: Vec<char> = Vec::new();
    let mut i: usize = 0;
    assert(s@.skip(0) =~= s@);
    while i < s.len()
        invariant
            i <= s.len(),
            views(r@) + words_from(s@.skip(i as int), cur@) == words(s@),
        decreases s.len() - i,
    {
        proof {
            lemma_words_step(s@, i as int, cur@);
        }
        if is_ws_exec(s[i]) {
            if cur.len() > 0 {
                let ghost old_r = r@;
                let ghost c = cur@;
                r.push(cur);
                assert(views(r@) =~= views(old_r) + seq![c]);
            } else {
                assert(views(r@) + Seq::<Seq<char>>::empty() =~= views(r@));
            }
            cur = Vec::new();
        } else {
            cur.push(s[i]);
        }
        i = i + 1;
    }
    if cur.len() > 0 {
        let ghost old_r = r@;
        let ghost c = cur@;
        r.push(cur);
        assert(views(r@) =~= views(old_r) + seq![c]);
    } else {
        assert(views(r@) =~= views(r@) + Seq::<Seq<char>>::empty());
    }
    r
}

/// Lemma: one step of `splitn_from` on a character that is not the last piece.
proof fn lemma_splitn_step(s: Seq<char>, i: int, n: nat, c: char, cur: Seq<char>)
    requires
        0 <= i < s.len(),
        n > 1,
    ensures
        splitn_from(s.skip(i), n, c, cur) == if s[i] == c {
            seq![cur] + splitn_from(s.skip(i + 1), (n - 1) as nat, c, seq![])
        } else {
            splitn_from(s.skip(i + 1), n, c, cur.push(s[i]))
        },
{
    assert(s.skip(i).drop_first() =~= s.skip(i + 1));
}

/// `str::splitn(n, c)` (for `n >= 1`).
pub fn splitn_exec(s: &[char], n: usize, c: char) -> (r: Vec<Vec<char>>)
    requires
        n >= 1,
    ensures
        views(r@) == splitn(s@, n as nat, c),
        r@.len() >= 1,
{
    let mut r: Vec<Vec<char>> = Vec::new();
    let mut cur: Vec<char> = Vec::new();
    let mut left: usize = n;
    let mut i: usize = 0;
    assert(s@.skip(0) =~= s@);
    while i < s.len() && left > 1
        invariant
            i <= s.len(),
            1 <= left <= n,
            views(r@) + splitn_from(s@.skip(i as int), left as nat, c, cur@) == splitn(s@, n as nat, c),
        decreases s.len() - i,
    {
        proof {
            lemma_splitn_step(s@, i as int, left as nat, c, cur@);
        }
        if s[i] == c {
            let ghost old_r = r@;
            let ghost cv = cur@;
            r.push(cur);
            assert(views(r@) =~= views(old_r) + seq![cv]);
            cur = Vec::new();
            left = left - 1;
        } else {
            cur.push(s[i]);
        }
        i = i + 1;
    }
    let ghost cv = cur@;
    let rest = slice(s, i, s.len());
    extend(&mut cur, &rest);
    proof {
        if i < s.len() {
            assert(left <= 1);
        } else {
            assert(s@.skip(i as int) =~= Seq::<char>::empty());
        }
        assert(s@.skip(i as int) =~= s@.subrange(i as int, s@.len() as int));
        assert(cv + Seq::<char>::empty() =~= cv);
    }
    let ghost old_r = r@;
    let ghost fin = cur@;
    r.push(cur);
    assert(views(r@) =~= views(old_r) + seq![fin]);
    r
}

/// Lemma: one step of `split_from`.
proof fn lemma_split_step(s: Seq<char>, i: int, c: char, cur: Seq<char>)
    requires
        0 <= i < s.len(),
    ensures
        split_from(s.skip(i), c, cur) == if s[i] == c {
            seq![cur] + split_from(s.skip(i + 1), c, seq![])
        } else {
            split_from(s.skip(i + 1), c, cur.push(s[i]))
        },
{
    assert(s.skip(i).drop_first() =~= s.skip(i + 1));
}

/// `str::split(c)`.
pub fn split_exec(s: &[char], c: char) -> (r: Vec<Vec<char>>)
    ensures
        views(r@) == split(s@, c),
{
    let mut r: Vec<Vec<char>> = Vec::new();
    let mut cur: Vec<char> = Vec::new();
    let mut i: usize = 0;
    assert(s@.skip(0) =~= s@);
    while i < s.len()
        invariant
            i <= s.len(),
            views(r@) + split_from(s@.skip(i as int), c, cur@) == split(s@, c),
        decreases s.len() - i,
    {
        proof {
            lemma_split_step(s@, i as int, c, cur@);
        }
        if s[i] == c {
            let ghost old_r = r@;
            let ghost cv = cur@;
            r.push(cur);
            assert(views(r@) =~= views(old_r) + seq![cv]);
            cur = Vec::new();
        } else {
            cur.push(s[i]);
        }
        i = i + 1;
    }
    let ghost old_r = r@;
    let ghost cv = cur@;
    r.push(cur);
    assert(views(r@) =~= views(old_r) + seq![cv]);
    r
}

/// `[T]::join` on character vectors.
pub fn join_exec(parts: &[Vec<char>], sep: &[char]) -> (r: Vec<char>)
    ensures
        r@ == join(views(parts@), sep@),
{
    let mut r: Vec<char> = Vec::new();
    let mut i: usize = 0;
    while i < parts.len()
        invariant
            i <= parts.len(),
            r@ == join(views(parts@).take(i as int), sep@),
        decreases parts.len() - i,
    {
        proof {
            lemma_join_push(views(parts@).take(i as int), sep@, parts@[i as int]@);
            assert(views(parts@).take(i as int).push(parts@[i as int]@) =~= views(parts@).take(
                i + 1,
            ));
        }
        if i > 0 {
            extend(&mut r, sep);
        }
        extend(&mut r, &parts[i]);
        i = i + 1;
    }
    assert(views(parts@).take(parts.len() as int) =~= views(parts@));
    r
}

/// The value of a string of decimal digits.
pub open spec fn digits_value(s: Seq<char>) -> nat
    decreases s.len(),
{
    if s.len() == 0 {
        0
    } else {
        digits_value(s.drop_last()) * 10 + ((s.last() as nat) - ('0' as nat)) as nat
    }
}

pub open spec fn all_digits(s: Seq<char>) -> bool {
    forall|i: int| 0 <= i < s.len() ==> is_digit(#[trigger] s[i])
}

/// `u64::from_str`: an optional `+` followed by one or more ASCII digits whose
/// value fits in a `u64`.
pub open spec fn parse_u64(s: Seq<char>) -> Option<u64> {
    let d = if s.len() > 0 && s[0] == '+' {
        s.drop_first()
    } else {
        s
    };
    if d.len() > 0 && all_digits(d) && digits_value(d) <= u64::MAX {
        Some(digits_value(d) as u64)
    } else {
        None
    }
}

/// `u64::from_str(..).unwrap_or(0)`.
pub open spec fn parse_u64_or_zero(s: Seq<char>) -> u64 {
    match parse_u64(s) {
        Some(v) => v,
        None => 0,
    }
}

/// Lemma: the value of a digit string never shrinks as digits are appended.
proof fn lemma_digits_value_mono(s: Seq<char>, i: int)
    requires
        0 <= i <= s.len(),
        all_digits(s),
    ensures
        digits_value(s.take(i)) <= digits_value(s),
    decreases s.len() - i,
{
    if i < s.len() {
        lemma_digits_value_mono(s, i + 1);
        assert(s.take(i + 1).drop_last() =~= s.take(i));
        assert(is_digit(s[i]));
    } else {
        assert(s.take(i) =~= s);
    }
}

/// `u64::from_str` on characters.
pub fn parse_u64_exec(s: &[char]) -> (r: Option<u64>)
    ensures
        r == parse_u64(s@),
{
    let start: usize = if s.len() > 0 && s[0] == '+' {
        1
    } else {
        0
    };
    let ghost d = if s@.len() > 0 && s@[0] == '+' {
        s@.drop_first()
    } else {
        s@
    };
    assert(d =~= s@.skip(start as int));
    if start >= s.len() {
        return None;
    }
    let mut v: u64 = 0;
    let mut i: usize = start;
    while i < s.len()
        invariant
            start <= i <= s.len(),
            d == s@.skip(start as int),
            d == (if s@.len() > 0 && s@[0] == '+' {
                s@.drop_first()
            } else {
                s@
            }),
            all_digits(d.take(i - start)),
            v == digits_value(d.take(i - start)),
        decreases s.len() - i,
    {
        let c = s[i];
        assert(d.take(i + 1 - start).drop_last() =~= d.take(i - start));
        assert(d[i - start] == c);
        if !is_digit_exec(c) {
            assert(!all_digits(d));
            return None;
        }
        let dv = (c as u32 - '0' as u32) as u64;
        assert(dv == (c as nat) - ('0' as nat));
        if v > (u64::MAX - dv) / 10 {
            proof {
                assert(all_digits(d.take(i + 1 - start)));
                if all_digits(d) {
                    lemma_digits_value_mono(d, i + 1 - start);
                }
            }
            return None;
        }
        v = v * 10 + dv;
        assert(all_digits(d.take(i + 1 - start)));
        i = i + 1;
    }
    assert(d.take(i - start) =~= d);
    Some(v)
}

/// `u64::from_str(..).unwrap_or(0)` on characters.
pub fn parse_u64_or_zero_exec(s: &[char]) -> (r: u64)
    ensures
        r == parse_u64_or_zero(s@),
{
    match parse_u64_exec(s) {
        Some(v) => v,
        None => 0,
    }
}

/// The ASCII digit for `d < 10`.
pub open spec fn digit_char(d: nat) -> char {
    (('0' as nat) + d) as char
}

/// The decimal rendering of `n` (`u64::to_string`).
pub open spec fn dec(n: nat) -> Seq<char>
    decreases n,
{
    if n < 10 {
        seq![digit_char(n)]
    } else {
        dec(n / 10).push(digit_char(n % 10))
    }
}

pub fn digit_char_exec(d: u64) -> (r: char)
    requires
        d < 10,
    ensures
        r == digit_char(d as nat),
{
    let b: u8 = 48u8 + (d as u8);
    b as char
}

/// `u64::to_string` on characters.
pub fn dec_exec(n: u64) -> (r: Vec<char>)
    ensures
        r@ == dec(n as nat),
    decreases n,
{
    if n < 10 {
        let mut v: Vec<char> = Vec::new();
        v.push(digit_char_exec(n));
        assert(v@ =~= seq![digit_char(n as nat)]);
        v
    } else {
        let mut v = dec_exec(n / 10);
        v.push(digit_char_exec(n % 10));
        v
    }
}

/// `u64::to_string`.
pub fn u64_to_string(n: u64) -> (r: String)
    ensures
        r@ == dec(n as nat),
{
    let v = dec_exec(n);
    to_string(&v)
}

/// `char::to_ascii_lowercase`.
pub fn lower_exec(c: char) -> (r: char)
    ensures
        r == lower(c),
{
    if 'A' <= c && c <= 'Z' {
        let u: u32 = (c as u32) + 32;
        let b: u8 = u as u8;
        assert(b == u);
        b as char
    } else {
        c
    }
}

/// A `String` holding the characters of `s` (`str::to_string`).
pub fn string_of(s: &str) -> (r: String)
    ensures
        r@ == s@,
{
    let c = chars_of(s);
    to_string(&c)
}

/// Lemma: one more element processed by `Seq::filter_map`.
pub proof fn lemma_filter_map_step<A, B>(s: Seq<A>, f: spec_fn(A) -> Option<B>, i: int)
    requires
        0 <= i < s.len(),
    ensures
        s.take(i + 1).filter_map(f) == s.take(i).filter_map(f) + match f(s[i]) {
            Some(b) => seq![b],
            None => seq![],
        },
{
    assert(s.take(i + 1).drop_last() =~= s.take(i));
    match f(s[i]) {
        Some(b) => {},
        None => {
            assert(s.take(i).filter_map(f) + Seq::<B>::empty() =~= s.take(i).filter_map(f));
        },
    }
}

proof fn lemma_dec_digits(n: nat)
    ensures
        dec(n).len() > 0,
        all_digits(dec(n)),
        digits_value(dec(n)) == n,
    decreases n,
{
    if n < 10 {
        assert(digit_char(n) as nat == 48 + n);
        assert(dec(n).drop_last() =~= Seq::<char>::empty());
        assert(digits_value(dec(n)) == digits_value(dec(n).drop_last()) * 10 + ((dec(n).last() as nat) - ('0' as nat)) as nat);
    } else {
        lemma_dec_digits(n / 10);
        let d = dec(n / 10).push(digit_char(n % 10));
        assert(d.drop_last() =~= dec(n / 10));
        assert(digit_char(n % 10) as nat == 48 + n % 10);
        assert((n / 10) * 10 + n % 10 == n) by (nonlinear_arith);
        assert(dec(n) == d);
        assert(d.last() == digit_char(n % 10));
        assert(digits_value(d) == digits_value(d.drop_last()) * 10 + ((d.last() as nat) - ('0' as nat)) as nat);
        assert(digits_value(d) == (n / 10) * 10 + n % 10);
        assert forall|i: int| 0 <= i < d.len() implies is_digit(#[trigger] d[i]) by {
            if i < d.len() - 1 {
                assert(d[i] == dec(n / 10)[i]);
            }
        }
    }
}

/// Law: the decimal text of a number parses back to that number
/// (`n.to_string().parse::<u64>() == Ok(n)`).
pub proof fn lemma_dec_parse_roundtrip(n: u64)
    ensures
        parse_u64(dec(n as nat)) == Some(n),
{
    lemma_dec_digits(n as nat);
    assert(is_digit(dec(n as nat)[0]));
}

/// Index of the first occurrence of `p` in `s` (`str::find` with a string).
pub open spec fn find_str(s: Seq<char>, p: Seq<char>) -> Option<int>
    decreases s.len(),
{
    if p.is_prefix_of(s) {
        Some(0)
    } else if s.len() == 0 {
        None
    } else {
        match find_str(s.drop_first(), p) {
            Some(i) => Some(i + 1),
            None => None,
        }
    }
}

/// `str::split_once` with a string delimiter.
pub open spec fn split_once_str(s: Seq<char>, p: Seq<char>) -> Option<(Seq<char>, Seq<char>)> {
    match find_str(s, p) {
        Some(i) => Some((s.take(i), s.skip(i + p.len()))),
        None => None,
    }
}

proof fn lemma_occurs_prefix(s: Seq<char>, p: Seq<char>, i: int)
    requires
        0 <= i <= s.len(),
    ensures
        occurs_at(s, p, i) == p.is_prefix_of(s.skip(i)),
{
    if occurs_at(s, p, i) {
        assert forall|k: int| 0 <= k < p.len() implies p[k] == s.skip(i)[k] by {
            assert(s.subrange(i, i + p.len())[k] == s[i + k]);
        }
    }
    if p.is_prefix_of(s.skip(i)) {
        assert(s.subrange(i, i + p.len()) =~= p);
    }
}

pub proof fn lemma_find_str_unique(s: Seq<char>, p: Seq<char>, i: int)
    requires
        0 <= i <= s.len(),
        forall|j: int| 0 <= j < i ==> !occurs_at(s, p, j),
    ensures
        find_str(s, p) == match find_str(s.skip(i), p) {
            Some(k) => Some(k + i),
            None => None::<int>,
        },
    decreases i,
{
    if i > 0 {
        lemma_occurs_prefix(s, p, 0);
        assert(s.skip(0) =~= s);
        assert forall|j: int| 0 <= j < i - 1 implies !occurs_at(s.drop_first(), p, j) by {
            lemma_occurs_prefix(s.drop_first(), p, j);
            lemma_occurs_prefix(s, p, j + 1);
            assert(s.drop_first().skip(j) =~= s.skip(j + 1));
        }
        lemma_find_str_unique(s.drop_first(), p, i - 1);
        assert(s.drop_first().skip(i - 1) =~= s.skip(i));
    } else {
        assert(s.skip(0) =~= s);
    }
}

/// `str::split_once` with a string delimiter.
pub fn split_once_str_exec(s: &[char], p: &str) -> (r: Option<(Vec<char>, Vec<char>)>)
    ensures
        match split_once_str(s@, p@) {
            Some((a, b)) => r is Some && (r->0).0@ == a && (r->0).1@ == b,
            None => r is None,
        },
{
    let pc = chars_of(p);
    let mut i: usize = 0;
    while i <= s.len()
        invariant
            i <= s.len(),
            pc@ == p@,
            forall|j: int| 0 <= j < i ==> !occurs_at(s@, p@, j),
        decreases s.len() + 1 - i,
    {
        if occurs_at_exec(s, &pc, i) {
            proof {
                lemma_find_str_unique(s@, p@, i as int);
                lemma_occurs_prefix(s@, p@, i as int);
                assert(find_str(s@.skip(i as int), p@) == Some(0int));
            }
            return Some((slice(s, 0, i), slice(s, i + pc.len(), s.len())));
        }
        if i == s.len() {
            proof {
                lemma_find_str_unique(s@, p@, i as int);
                lemma_occurs_prefix(s@, p@, i as int);
                assert(s@.skip(i as int).len() == 0);
            }
            return None;
        }
        i = i + 1;
    }
    None
}

/// `str::contains` with a string pattern.
pub fn contains_exec(s: &[char], p: &str) -> (r: bool)
    ensures
        r == contains(s@, p@),
{
    let pc = chars_of(p);
    let mut i: usize = 0;
    while i <= s.len()
        invariant
            i <= s.len(),
            pc@ == p@,
            forall|j: int| 0 <= j < i ==> !occurs_at(s@, p@, j),
        decreases s.len() + 1 - i,
    {
        if occurs_at_exec(s, &pc, i) {
            return true;
        }
        if i == s.len() {
            assert forall|j: int| !occurs_at(s@, p@, j) by {
                if 0 <= j <= s.len() {
                } else {
                }
            }
            return false;
        }
        i = i + 1;
    }
    false
}

} // verus!
