//! Text helpers shared by several commands.
use vstd::prelude::*;
use crate::text::{
    chars_of, find, is_alnum, is_alnum_exec, is_ws, is_ws_exec, lemma_find, lemma_find_unique,
    lower, lower_exec, skip_ws, slice, to_string, trim_start, views,
};

verus! {

/// The length of the word at the start of `s`: its characters up to the
/// first whitespace character.
pub open spec fn word_len(s: Seq<char>) -> nat
    decreases s.len(),
{
    if s.len() == 0 || is_ws(s[0]) {
        0
    } else {
        1 + word_len(s.drop_first())
    }
}

/// The text of `s` that follows its first `n` whitespace-separated words,
/// with leading whitespace removed; empty when `s` has fewer than `n` words.
/// With `n == 0` nothing precedes the text, so it is `s` without its leading
/// whitespace.
pub open spec fn text_after_words(s: Seq<char>, n: nat) -> Seq<char>
    decreases n,
{
    let u = trim_start(s);
    if n == 0 {
        u
    } else if u.len() == 0 {
        seq![]
    } else {
        text_after_words(u.skip(word_len(u) as int), (n - 1) as nat)
    }
}

/// The scan behind [`remainder_after_tokens`], one character at a time:
/// the text after the first `k` tokens of `s`, leading whitespace removed;
/// `in_token` says whether a token is under way. A token counts once
/// whitespace follows it or the text ends.
spec fn after_tokens(s: Seq<char>, k: nat, in_token: bool) -> Seq<char>
    decreases s.len(),
{
    if k == 0 {
        trim_start(s)
    } else if s.len() == 0 {
        seq![]
    } else if is_ws(s[0]) {
        if in_token {
            if k == 1 {
                trim_start(s)
            } else {
                after_tokens(s.drop_first(), (k - 1) as nat, false)
            }
        } else {
            after_tokens(s.drop_first(), k, false)
        }
    } else {
        after_tokens(s.drop_first(), k, true)
    }
}

proof fn lemma_word_len_bound(s: Seq<char>)
    ensures
        word_len(s) <= s.len(),
        word_len(s) < s.len() ==> is_ws(s[word_len(s) as int]),
    decreases s.len(),
{
    if s.len() > 0 && !is_ws(s[0]) {
        lemma_word_len_bound(s.drop_first());
        if word_len(s) < s.len() {
            assert(s[word_len(s) as int] == s.drop_first()[word_len(s.drop_first()) as int]);
        }
    }
}

proof fn lemma_trim_start_first(s: Seq<char>)
    ensures
        trim_start(s).len() > 0 ==> !is_ws(trim_start(s)[0]),
    decreases s.len(),
{
    if s.len() > 0 && is_ws(s[0]) {
        lemma_trim_start_first(s.drop_first());
    }
}

/// Leading whitespace before a token is passed over.
proof fn lemma_after_tokens_skip_ws(s: Seq<char>, k: nat)
    requires
        k >= 1,
    ensures
        after_tokens(s, k, false) == after_tokens(trim_start(s), k, false),
    decreases s.len(),
{
    if s.len() > 0 && is_ws(s[0]) {
        lemma_after_tokens_skip_ws(s.drop_first(), k);
    }
}

/// The rest of a token under way is passed over.
proof fn lemma_after_tokens_skip_word(s: Seq<char>, k: nat)
    requires
        k >= 1,
    ensures
        after_tokens(s, k, true) == after_tokens(s.skip(word_len(s) as int), k, true),
    decreases s.len(),
{
    if s.len() == 0 || is_ws(s[0]) {
        assert(s.skip(0) =~= s);
    } else {
        lemma_after_tokens_skip_word(s.drop_first(), k);
        lemma_word_len_bound(s.drop_first());
        assert(s.skip(word_len(s) as int) =~= s.drop_first().skip(word_len(s.drop_first()) as int));
    }
}

/// Lemma: the character scan computes the text after the first `k` words.
proof fn lemma_after_tokens_words(s: Seq<char>, k: nat)
    ensures
        after_tokens(s, k, false) == text_after_words(s, k),
    decreases k,
{
    if k >= 1 {
        lemma_after_tokens_skip_ws(s, k);
        let u = trim_start(s);
        lemma_trim_start_first(s);
        if u.len() > 0 {
            lemma_after_tokens_skip_word(u.drop_first(), k);
            lemma_word_len_bound(u.drop_first());
            lemma_word_len_bound(u);
            let r = u.skip(word_len(u) as int);
            assert(r =~= u.drop_first().skip(word_len(u.drop_first()) as int));
            assert(after_tokens(u, k, false) == after_tokens(u.drop_first(), k, true));
            assert(after_tokens(u, k, false) == after_tokens(r, k, true));
            assert(text_after_words(s, k) == text_after_words(r, (k - 1) as nat));
            if r.len() > 0 {
                assert(r[0] == u[word_len(u) as int]);
                assert(trim_start(r) == trim_start(r.drop_first()));
                if k >= 2 {
                    lemma_after_tokens_skip_ws(r.drop_first(), (k - 1) as nat);
                    lemma_after_tokens_words(r.drop_first(), (k - 1) as nat);
                    assert(text_after_words(r, (k - 1) as nat) == text_after_words(r.drop_first(), (k - 1) as nat));
                }
            } else {
                assert(trim_start(r) =~= Seq::<char>::empty());
            }
        }
    }
}

/// Return the substring of `line` that follows the first `n` whitespace-
/// separated tokens, with leading whitespace trimmed.
pub fn remainder_after_tokens(line: &[char], n: usize) -> (r: String)
    ensures
        r@ == text_after_words(line@, n as nat),
{
    proof {
        lemma_after_tokens_words(line@, n as nat);
    }
    if n == 0 {
        let j = skip_ws(line, 0);
        assert(line@.skip(0) =~= line@);
        assert(line@.skip(j as int) =~= line@.subrange(j as int, line@.len() as int));
        return to_string(&slice(line, j, line.len()));
    }
    let mut count: usize = 0;
    let mut in_token = false;
    let mut i: usize = 0;
    assert(line@.skip(0) =~= line@);
    while i < line.len()
        invariant
            i <= line.len(),
            0 < n,
            count < n,
            after_tokens(line@, n as nat, false) == text_after_words(line@, n as nat),
            after_tokens(line@.skip(i as int), (n - count) as nat, in_token) == after_tokens(
                line@,
                n as nat,
                false,
            ),
        decreases line.len() - i,
    {
        let ghost t = line@.skip(i as int);
        assert(t[0] == line@[i as int]);
        assert(t.drop_first() =~= line@.skip(i + 1));
        let ch = line[i];
        if is_ws_exec(ch) {
            if in_token {
                in_token = false;
                count = count + 1;
                if count == n {
                    let j = skip_ws(line, i);
                    assert(line@.skip(j as int) =~= line@.subrange(j as int, line@.len() as int));
                    return to_string(&slice(line, j, line.len()));
                }
            }
        } else {
            in_token = true;
        }
        i = i + 1;
    }
    assert(line@.skip(i as int) =~= Seq::<char>::empty());
    to_string(&Vec::new())
}

/// The characters of a key with parentheses dropped, ASCII letters and
/// digits lowercased, and each run of other characters turned into one `_`;
/// `prev_underscore` says whether the text so far ends in such a `_`.
pub open spec fn key_chars(s: Seq<char>, prev_underscore: bool) -> Seq<char>
    decreases s.len(),
{
    if s.len() == 0 {
        seq![]
    } else {
        let c = s[0];
        let rest = s.drop_first();
        if c == '(' || c == ')' {
            key_chars(rest, prev_underscore)
        } else if is_alnum(c) {
            seq![lower(c)] + key_chars(rest, false)
        } else if !prev_underscore {
            seq!['_'] + key_chars(rest, true)
        } else {
            key_chars(rest, true)
        }
    }
}

/// `s` without leading and trailing copies of `c` (`str::trim_matches`).
pub open spec fn trim_char(s: Seq<char>, c: char) -> Seq<char>
    decreases s.len(),
{
    if s.len() > 0 && s[0] == c {
        trim_char(s.drop_first(), c)
    } else if s.len() > 0 && s.last() == c {
        trim_char(s.drop_last(), c)
    } else {
        s
    }
}

/// Normalise a dmidecode/`lscpu`-style key to a snake_case JSON key: drop
/// parentheses (so "CPU(s)" becomes "cpus"), lowercase, and turn any run of
/// non-alphanumeric characters into a single underscore, with none left at
/// either end.
pub open spec fn normalized_key(raw: Seq<char>) -> Seq<char> {
    trim_char(key_chars(raw, false), '_')
}

/// A character a normalised key may hold: a lowercase ASCII letter, a digit
/// or `_`.
pub open spec fn key_char(c: char) -> bool {
    ('a' <= c && c <= 'z') || crate::text::is_digit(c) || c == '_'
}

/// No two neighbouring characters of `s` are both `_`.
pub open spec fn no_double_underscore(s: Seq<char>) -> bool {
    forall|i: int, j: int| 0 <= i && j == i + 1 && j < s.len() ==> !(#[trigger] s[i] == '_' && #[trigger] s[j] == '_')
}

/// `s` with every `_` removed.
pub open spec fn without_underscores(s: Seq<char>) -> Seq<char>
    decreases s.len(),
{
    if s.len() == 0 {
        seq![]
    } else if s[0] == '_' {
        without_underscores(s.drop_first())
    } else {
        seq![s[0]] + without_underscores(s.drop_first())
    }
}

/// The ASCII letters and digits of `s`, lowercased, in order.
pub open spec fn alnum_lower(s: Seq<char>) -> Seq<char>
    decreases s.len(),
{
    if s.len() == 0 {
        seq![]
    } else if is_alnum(s[0]) {
        seq![lower(s[0])] + alnum_lower(s.drop_first())
    } else {
        alnum_lower(s.drop_first())
    }
}

proof fn lemma_lower_key_char(c: char)
    ensures
        is_alnum(c) ==> key_char(lower(c)) && lower(c) != '_',
        key_char(c) && c != '_' ==> is_alnum(c) && lower(c) == c,
{
    if 'A' <= c && c <= 'Z' {
        let v = (c as u32) + 32;
        assert(97 <= v <= 122);
        assert((v as char) as u32 == v);
    }
}

proof fn lemma_key_chars_shape(s: Seq<char>, prev: bool)
    ensures
        forall|i: int| 0 <= i < key_chars(s, prev).len() ==> key_char(#[trigger] key_chars(s, prev)[i]),
        no_double_underscore(key_chars(s, prev)),
        prev && key_chars(s, prev).len() > 0 ==> key_chars(s, prev)[0] != '_',
        without_underscores(key_chars(s, prev)) == alnum_lower(s),
    decreases s.len(),
{
    if s.len() > 0 {
        let c = s[0];
        let rest = s.drop_first();
        let k = key_chars(s, prev);
        lemma_lower_key_char(c);
        if c == '(' || c == ')' {
            lemma_key_chars_shape(rest, prev);
        } else if is_alnum(c) {
            let t = key_chars(rest, false);
            lemma_key_chars_shape(rest, false);
            assert(k == seq![lower(c)] + t);
            assert(k.drop_first() =~= t);
            assert forall|i: int| 0 <= i < k.len() implies key_char(#[trigger] k[i]) by {
                if i > 0 {
                    assert(k[i] == t[i - 1]);
                }
            }
            assert forall|i: int, j: int| 0 <= i && j == i + 1 && j < k.len() implies !(#[trigger] k[i] == '_'
                && #[trigger] k[j] == '_') by {
                if i > 0 {
                    assert(k[i] == t[i - 1] && k[j] == t[j - 1]);
                }
            }
        } else if !prev {
            let t = key_chars(rest, true);
            lemma_key_chars_shape(rest, true);
            assert(k == seq!['_'] + t);
            assert(k.drop_first() =~= t);
            assert forall|i: int| 0 <= i < k.len() implies key_char(#[trigger] k[i]) by {
                if i > 0 {
                    assert(k[i] == t[i - 1]);
                }
            }
            assert forall|i: int, j: int| 0 <= i && j == i + 1 && j < k.len() implies !(#[trigger] k[i] == '_'
                && #[trigger] k[j] == '_') by {
                if i > 0 {
                    assert(k[i] == t[i - 1] && k[j] == t[j - 1]);
                } else {
                    assert(k[j] == t[0]);
                }
            }
        } else {
            lemma_key_chars_shape(rest, true);
        }
    }
}

proof fn lemma_without_underscores_drop_last(s: Seq<char>)
    requires
        s.len() > 0,
    ensures
        without_underscores(s) == without_underscores(s.drop_last()) + if s.last() == '_' {
            Seq::<char>::empty()
        } else {
            seq![s.last()]
        },
    decreases s.len(),
{
    if s.len() == 1 {
        assert(s.drop_last() =~= Seq::<char>::empty());
        assert(s.drop_first() =~= Seq::<char>::empty());
    } else {
        lemma_without_underscores_drop_last(s.drop_first());
        assert(s.drop_first().drop_last() =~= s.drop_last().drop_first());
        assert(s.drop_last()[0] == s[0]);
        if s[0] == '_' {
        } else {
            assert(without_underscores(s.drop_last()) == seq![s[0]] + without_underscores(s.drop_last().drop_first()));
            assert(without_underscores(s) =~= without_underscores(s.drop_last()) + if s.last() == '_' {
                Seq::<char>::empty()
            } else {
                seq![s.last()]
            });
        }
    }
}

proof fn lemma_trim_underscores(s: Seq<char>)
    requires
        forall|i: int| 0 <= i < s.len() ==> key_char(#[trigger] s[i]),
        no_double_underscore(s),
    ensures
        forall|i: int| 0 <= i < trim_char(s, '_').len() ==> key_char(#[trigger] trim_char(s, '_')[i]),
        no_double_underscore(trim_char(s, '_')),
        trim_char(s, '_').len() > 0 ==> trim_char(s, '_')[0] != '_' && trim_char(s, '_').last() != '_',
        without_underscores(trim_char(s, '_')) == without_underscores(s),
    decreases s.len(),
{
    if s.len() > 0 && s[0] == '_' {
        let t = s.drop_first();
        assert forall|i: int| 0 <= i < t.len() implies key_char(#[trigger] t[i]) by {
            assert(t[i] == s[i + 1]);
        }
        assert forall|i: int, j: int| 0 <= i && j == i + 1 && j < t.len() implies !(#[trigger] t[i] == '_'
            && #[trigger] t[j] == '_') by {
            assert(t[i] == s[i + 1] && t[j] == s[j + 1]);
        }
        lemma_trim_underscores(t);
    } else if s.len() > 0 && s.last() == '_' {
        let t = s.drop_last();
        assert forall|i: int| 0 <= i < t.len() implies key_char(#[trigger] t[i]) by {
            assert(t[i] == s[i]);
        }
        assert forall|i: int, j: int| 0 <= i && j == i + 1 && j < t.len() implies !(#[trigger] t[i] == '_'
            && #[trigger] t[j] == '_') by {
            assert(t[i] == s[i] && t[j] == s[j]);
        }
        lemma_trim_underscores(t);
        lemma_without_underscores_drop_last(s);
        assert(without_underscores(t) + Seq::<char>::empty() =~= without_underscores(t));
    } else if s.len() > 0 {
        assert(s.last() == s[s.len() - 1]);
    }
}

proof fn lemma_key_chars_fixed(t: Seq<char>, prev: bool)
    requires
        forall|i: int| 0 <= i < t.len() ==> key_char(#[trigger] t[i]),
        no_double_underscore(t),
        prev ==> t.len() == 0 || t[0] != '_',
    ensures
        key_chars(t, prev) == t,
    decreases t.len(),
{
    if t.len() > 0 {
        let c = t[0];
        let rest = t.drop_first();
        lemma_lower_key_char(c);
        assert(key_char(t[0]));
        assert forall|i: int| 0 <= i < rest.len() implies key_char(#[trigger] rest[i]) by {
            assert(rest[i] == t[i + 1]);
        }
        assert forall|i: int, j: int| 0 <= i && j == i + 1 && j < rest.len() implies !(#[trigger] rest[i] == '_'
            && #[trigger] rest[j] == '_') by {
            assert(rest[i] == t[i + 1] && rest[j] == t[j + 1]);
        }
        if c == '_' {
            if rest.len() > 0 {
                assert(!(t[0] == '_' && t[1] == '_'));
                assert(rest[0] == t[1]);
            }
            lemma_key_chars_fixed(rest, true);
        } else {
            lemma_key_chars_fixed(rest, false);
        }
        assert(t =~= seq![c] + rest);
    }
}

/// Law: normalised keys are snake_case. A key holds only lowercase ASCII
/// letters, digits and `_`; it neither starts nor ends with `_` and never
/// holds `__`; without its underscores it is exactly the ASCII letters and
/// digits of the raw key, lowercased; and normalising it again changes
/// nothing.
pub proof fn lemma_normalized_key_shape(raw: Seq<char>)
    ensures
        ({
            let k = normalized_key(raw);
            &&& forall|i: int| 0 <= i < k.len() ==> key_char(#[trigger] k[i])
            &&& k.len() > 0 ==> k[0] != '_' && k.last() != '_'
            &&& no_double_underscore(k)
            &&& without_underscores(k) == alnum_lower(raw)
            &&& normalized_key(k) == k
        }),
{
    let kc = key_chars(raw, false);
    lemma_key_chars_shape(raw, false);
    lemma_trim_underscores(kc);
    let k = normalized_key(raw);
    lemma_key_chars_fixed(k, false);
    if k.len() > 0 {
        assert(k.last() == k[k.len() - 1]);
    }
    assert(trim_char(k, '_') == k);
}

proof fn lemma_key_chars_step(s: Seq<char>, i: int, prev: bool)
    requires
        0 <= i < s.len(),
    ensures
        key_chars(s.skip(i), prev) == ({
            let c = s[i];
            let rest = s.skip(i + 1);
            if c == '(' || c == ')' {
                key_chars(rest, prev)
            } else if is_alnum(c) {
                seq![lower(c)] + key_chars(rest, false)
            } else if !prev {
                seq!['_'] + key_chars(rest, true)
            } else {
                key_chars(rest, true)
            }
        }),
{
    assert(s.skip(i).drop_first() =~= s.skip(i + 1));
}

/// Removes leading and trailing copies of `c`.
fn trim_char_exec(s: &Vec<char>, c: char) -> (r: Vec<char>)
    ensures
        r@ == trim_char(s@, c),
{
    let mut a: usize = 0;
    let mut b: usize = s.len();
    assert(s@.subrange(0, s@.len() as int) =~= s@);
    while a < b && s[a] == c
        invariant
            a <= b == s.len(),
            trim_char(s@.subrange(a as int, b as int), c) == trim_char(s@, c),
        decreases b - a,
    {
        assert(s@.subrange(a as int, b as int).drop_first() =~= s@.subrange(a + 1, b as int));
        a = a + 1;
    }
    assert(s@.subrange(0, s@.len() as int) =~= s@);
    while a < b && s[b - 1] == c
        invariant
            a <= b <= s.len(),
            a < b ==> s@[a as int] != c,
            trim_char(s@.subrange(a as int, b as int), c) == trim_char(s@, c),
        decreases b - a,
    {
        let ghost t = s@.subrange(a as int, b as int);
        assert(t[0] == s@[a as int]);
        assert(t.last() == s@[b - 1]);
        assert(t.drop_last() =~= s@.subrange(a as int, b - 1));
        b = b - 1;
    }
    proof {
        let t = s@.subrange(a as int, b as int);
        if a < b {
            assert(t[0] == s@[a as int]);
            assert(t.last() == s@[b - 1]);
        }
    }
    slice(s, a, b)
}

/// Normalise a dmidecode/`lscpu`-style key to snake_case (see
/// [`normalized_key`]).
pub fn normalize_key(raw: &[char]) -> (r: String)
    ensures
        r@ == normalized_key(raw@),
{
    let mut out: Vec<char> = Vec::new();
    let mut prev_underscore = false;
    let mut i: usize = 0;
    assert(raw@.skip(0) =~= raw@);
    while i < raw.len()
        invariant
            i <= raw.len(),
            out@ + key_chars(raw@.skip(i as int), prev_underscore) == key_chars(raw@, false),
        decreases raw.len() - i,
    {
        proof {
            lemma_key_chars_step(raw@, i as int, prev_underscore);
        }
        let c = raw[i];
        if c == '(' || c == ')' {
        } else if is_alnum_exec(c) {
            out.push(lower_exec(c));
            prev_underscore = false;
        } else if !prev_underscore {
            out.push('_');
            prev_underscore = true;
        }
        i = i + 1;
    }
    assert(raw@.skip(i as int) =~= Seq::<char>::empty());
    assert(out@ + Seq::<char>::empty() =~= out@);
    let t = trim_char_exec(&out, '_');
    to_string(&t)
}

/// The contents of the single-quoted entries of a GVariant list literal
/// such as `['a', 'b']`; an unterminated last entry runs to the end, and
/// `@as []` yields none.
pub open spec fn quoted_entries(s: Seq<char>) -> Seq<Seq<char>>
    decreases s.len(),
{
    proof {
        lemma_find(s, '\'');
    }
    match find(s, '\'') {
        None => seq![],
        Some(i) => {
            let rest = s.skip(i + 1);
            proof {
                lemma_find(rest, '\'');
            }
            match find(rest, '\'') {
                Some(j) => seq![rest.take(j)] + quoted_entries(rest.skip(j + 1)),
                None => seq![rest],
            }
        },
    }
}

/// Index of the first `c` in `s[from..]`, or `s.len()` if there is none.
fn find_from(s: &[char], from: usize, c: char) -> (r: usize)
    requires
        from <= s.len(),
    ensures
        from <= r <= s.len(),
        match find(s@.skip(from as int), c) {
            Some(q) => r == from + q,
            None => r == s.len(),
        },
{
    let mut i = from;
    while i < s.len() && s[i] != c
        invariant
            from <= i <= s.len(),
            forall|j: int| from <= j < i ==> s@[j] != c,
        decreases s.len() - i,
    {
        i = i + 1;
    }
    proof {
        let t = s@.skip(from as int);
        assert forall|j: int| 0 <= j < i - from implies t[j] != c by {
            assert(t[j] == s@[from + j]);
        }
        if i < s.len() {
            assert(t[i - from] == s@[i as int]);
        }
        lemma_find_unique(t, c, i - from);
    }
    i
}

/// Extract the contents of single-quoted entries from a GVariant list literal.
/// `@as []` (the empty typed array) yields no entries.
pub fn parse_quoted_entries(value: &[char]) -> (r: Vec<String>)
    ensures
        r@.map_values(|e: String| e@) == quoted_entries(value@),
{
    let n = value.len();
    let mut entries: Vec<String> = Vec::new();
    let mut i: usize = 0;
    assert(value@.skip(0) =~= value@);
    while i < n
        invariant
            n == value.len(),
            i <= n,
            entries@.map_values(|e: String| e@) + quoted_entries(value@.skip(i as int))
                == quoted_entries(value@),
        decreases n - i,
    {
        let ghost t = value@.skip(i as int);
        let q = find_from(value, i, '\'');
        proof {
            lemma_find(t, '\'');
        }
        if q == n {
            assert(quoted_entries(t) =~= Seq::<Seq<char>>::empty());
            i = n;
            assert(value@.skip(n as int) =~= Seq::<char>::empty());
            assert(entries@.map_values(|e: String| e@) + Seq::<Seq<char>>::empty() =~= entries@.map_values(|e: String| e@));
        } else {
        let start = q + 1;
        assert(t.skip(q - i + 1) =~= value@.skip(start as int));
        let e = find_from(value, start, '\'');
        let entry = to_string(&slice(value, start, e));
        let ghost rest = value@.skip(start as int);
        proof {
            lemma_find(rest, '\'');
        }
        let ghost before = entries@;
        entries.push(entry);
        assert(entries@.map_values(|e: String| e@) =~= before.map_values(|e: String| e@).push(entry@));
        if e < n {
            assert(entry@ =~= rest.take(e - start));
            assert(rest.skip(e - start + 1) =~= value@.skip(e + 1));
            i = e + 1;
        } else {
            assert(entry@ =~= rest);
            assert(value@.skip(n as int) =~= Seq::<char>::empty());
            i = n;
        }
        }
    }
    assert(value@.skip(i as int) =~= Seq::<char>::empty());
    assert(entries@.map_values(|e: String| e@) + Seq::<Seq<char>>::empty() =~= entries@.map_values(|e: String| e@));
    entries
}

/// "yes" or "no".
pub open spec fn yes_no(b: bool) -> Seq<char> {
    if b {
        "yes"@
    } else {
        "no"@
    }
}

pub fn yes_no_exec(b: bool) -> (r: String)
    ensures
        r@ == yes_no(b),
{
    if b {
        crate::text::string_of("yes")
    } else {
        crate::text::string_of("no")
    }
}

/// `Some(b)` as "yes"/"no", and `None` as "-".
pub open spec fn yes_no_opt(b: Option<bool>) -> Seq<char> {
    match b {
        Some(v) => yes_no(v),
        None => "-"@,
    }
}

/// Render an optional bool as a table cell.
pub fn yesno(b: Option<bool>) -> (r: String)
    ensures
        r@ == yes_no_opt(b),
{
    match b {
        Some(v) => yes_no_exec(v),
        None => crate::text::string_of("-"),
    }
}

/// A present value as its text, `-` when absent.
pub open spec fn opt_text(v: Option<Seq<char>>) -> Seq<char> {
    match v {
        Some(t) => t,
        None => "-"@,
    }
}

/// An optional integer as its decimal text, `-` when absent.
pub open spec fn opt_u64_text(v: Option<u64>) -> Seq<char> {
    match v {
        Some(n) => crate::text::dec(n as nat),
        None => "-"@,
    }
}

/// Render an optional integer for the table (`-` when absent).
pub fn cell_u64(value: Option<u64>) -> (r: String)
    ensures
        r@ == opt_u64_text(value),
{
    match value {
        Some(v) => crate::text::u64_to_string(v),
        None => crate::text::string_of("-"),
    }
}

/// An optional string, or `dflt` when absent.
pub fn or_text(v: &Option<String>, dflt: &str) -> (r: String)
    ensures
        r@ == match v {
            Some(t) => t@,
            None => dflt@,
        },
{
    match v {
        Some(t) => t.clone(),
        None => crate::text::string_of(dflt),
    }
}

/// Strict lexicographic order on character sequences (the order of `str`).
pub open spec fn lex_lt(a: Seq<char>, b: Seq<char>) -> bool
    decreases a.len(),
{
    if a.len() == 0 {
        b.len() > 0
    } else if b.len() == 0 {
        false
    } else if a[0] != b[0] {
        a[0] < b[0]
    } else {
        lex_lt(a.drop_first(), b.drop_first())
    }
}

/// Lemma: exactly one of `a < b`, `a == b`, `b < a` holds.
pub proof fn lemma_lex_trichotomy(a: Seq<char>, b: Seq<char>)
    ensures
        lex_lt(a, b) || a == b || lex_lt(b, a),
        !(lex_lt(a, b) && lex_lt(b, a)),
        lex_lt(a, b) ==> a != b,
    decreases a.len(),
{
    if a.len() > 0 && b.len() > 0 && a[0] == b[0] {
        lemma_lex_trichotomy(a.drop_first(), b.drop_first());
        if a.drop_first() == b.drop_first() {
            assert(a =~= seq![a[0]] + a.drop_first());
            assert(b =~= seq![b[0]] + b.drop_first());
        }
    } else if a.len() == 0 && b.len() == 0 {
        assert(a =~= b);
    }
}

proof fn lemma_lex_prefix(a: Seq<char>, b: Seq<char>)
    requires
        b.len() > 0,
    ensures
        lex_lt(a, a + b),
        !lex_lt(a + b, a),
    decreases a.len(),
{
    if a.len() > 0 {
        lemma_lex_prefix(a.drop_first(), b);
        assert((a + b)[0] == a[0]);
        assert((a + b).drop_first() =~= a.drop_first() + b);
    } else {
        assert(a + b =~= b);
    }
}

proof fn lemma_lex_first_difference(a: Seq<char>, b: Seq<char>, i: int)
    requires
        0 <= i < a.len(),
        i < b.len(),
        forall|j: int| 0 <= j < i ==> a[j] == b[j],
        a[i] < b[i],
    ensures
        lex_lt(a, b),
    decreases i,
{
    if i > 0 {
        assert(a[0] == b[0]);
        assert forall|j: int| 0 <= j < i - 1 implies a.drop_first()[j] == b.drop_first()[j] by {
            assert(a[j + 1] == b[j + 1]);
        }
        lemma_lex_first_difference(a.drop_first(), b.drop_first(), i - 1);
    }
}

proof fn lemma_lex_transitive(a: Seq<char>, b: Seq<char>, c: Seq<char>)
    requires
        lex_lt(a, b),
        lex_lt(b, c),
    ensures
        lex_lt(a, c),
    decreases a.len(),
{
    if a.len() > 0 && b.len() > 0 && c.len() > 0 && a[0] == b[0] && b[0] == c[0] {
        lemma_lex_transitive(a.drop_first(), b.drop_first(), c.drop_first());
    }
}

/// Law: names sort in the order of `str`: the empty name comes first, a
/// name comes before every longer name that starts with it, and otherwise
/// the first differing character decides; the order is strict, total and
/// transitive.
pub proof fn lemma_str_order(a: Seq<char>, b: Seq<char>, c: Seq<char>)
    ensures
        b.len() > 0 ==> lex_lt(a, a + b) && !lex_lt(a + b, a),
        a.len() > 0 ==> lex_lt(Seq::<char>::empty(), a),
        forall|i: int|
            0 <= i < a.len() && i < b.len() && (forall|j: int| 0 <= j < i ==> a[j] == b[j]) && a[i] < b[i]
                ==> lex_lt(a, b),
        !lex_lt(a, a),
        lex_lt(a, b) || a == b || lex_lt(b, a),
        !(lex_lt(a, b) && lex_lt(b, a)),
        lex_lt(a, b) && lex_lt(b, c) ==> lex_lt(a, c),
{
    if b.len() > 0 {
        lemma_lex_prefix(a, b);
    }
    assert forall|i: int|
        0 <= i < a.len() && i < b.len() && (forall|j: int| 0 <= j < i ==> a[j] == b[j]) && a[i] < b[i] implies lex_lt(
        a,
        b,
    ) by {
        lemma_lex_first_difference(a, b, i);
    }
    lemma_lex_trichotomy(a, a);
    lemma_lex_trichotomy(a, b);
    if lex_lt(a, b) && lex_lt(b, c) {
        lemma_lex_transitive(a, b, c);
    }
}

/// `a < b` in the order of `str`.
pub fn lex_lt_exec(a: &[char], b: &[char]) -> (r: bool)
    ensures
        r == lex_lt(a@, b@),
{
    let mut i: usize = 0;
    assert(a@.skip(0) =~= a@);
    assert(b@.skip(0) =~= b@);
    while i < a.len() && i < b.len() && a[i] == b[i]
        invariant
            i <= a.len(),
            i <= b.len(),
            lex_lt(a@.skip(i as int), b@.skip(i as int)) == lex_lt(a@, b@),
        decreases a.len() - i,
    {
        assert(a@.skip(i as int).drop_first() =~= a@.skip(i + 1));
        assert(b@.skip(i as int).drop_first() =~= b@.skip(i + 1));
        i = i + 1;
    }
    let ghost ta = a@.skip(i as int);
    let ghost tb = b@.skip(i as int);
    if i < a.len() && i < b.len() {
        assert(ta[0] == a@[i as int] && tb[0] == b@[i as int]);
        a[i] < b[i]
    } else {
        i == a.len() && i < b.len()
    }
}

/// `(key, index)` pairs in strict order: by key, then by position in the input.
pub open spec fn before(keys: Seq<Seq<char>>, i: int, j: int) -> bool {
    lex_lt(keys[i], keys[j]) || (keys[i] == keys[j] && i < j)
}

/// `order` lists every position of `keys` exactly once, sorted by key and,
/// among equal keys, by position: the order of a stable sort.
pub open spec fn stable_order(keys: Seq<Seq<char>>, order: Seq<int>) -> bool {
    &&& order.len() == keys.len()
    &&& forall|k: int| 0 <= k < order.len() ==> 0 <= #[trigger] order[k] < keys.len()
    &&& forall|k: int, l: int| 0 <= k < l < order.len() ==> before(keys, #[trigger] order[k], #[trigger] order[l])
}

/// The positions of `keys` in the order of a stable sort by key
/// (`slice::sort_by` with `str` comparison).
pub fn stable_sort_order(keys: &Vec<Vec<char>>) -> (r: Vec<usize>)
    ensures
        stable_order(views(keys@), r@.map_values(|i: usize| i as int)),
{
    let ghost kv = views(keys@);
    let n = keys.len();
    let mut used: Vec<bool> = Vec::new();
    let mut u: usize = 0;
    while u < n
        invariant
            u <= n,
            used@.len() == u,
            forall|k: int| 0 <= k < u ==> !used@[k],
        decreases n - u,
    {
        used.push(false);
        u = u + 1;
    }
    proof {
        assert(used@ =~= Seq::new(n as nat, |_i: int| false));
        lemma_count_false_all(n as nat);
    }
    let mut out: Vec<usize> = Vec::new();
    while out.len() < n
        invariant
            n == keys.len(),
            kv == views(keys@),
            used@.len() == n,
            out@.len() <= n,
            count_false(used@) + out@.len() == n,
            forall|k: int| 0 <= k < out@.len() ==> (#[trigger] out@[k]) < n && used@[out@[k] as int],
            forall|k: int, l: int|
                0 <= k < l < out@.len() ==> before(kv, #[trigger] out@[k] as int, #[trigger] out@[l] as int),
            forall|k: int, m: int|
                #![trigger out@[k], used@[m]]
                0 <= k < out@.len() && 0 <= m < n && !used@[m] ==> before(kv, out@[k] as int, m),
        decreases n - out@.len(),
    {
        proof {
            lemma_count_false_exists(used@);
        }
        let mut best: usize = n;
        let mut m: usize = 0;
        while m < n
            invariant
                n == keys.len(),
                kv == views(keys@),
                used@.len() == n,
                m <= n,
                best == n || (best < m && !used@[best as int]),
                best < n ==> forall|x: int| 0 <= x < m && !used@[x] && x != best ==> before(kv, best as int, x),
                best == n ==> forall|x: int| 0 <= x < m ==> used@[x],
            decreases n - m,
        {
            if !used[m] {
                if best == n {
                    best = m;
                } else {
                    assert(kv[best as int] == keys@[best as int]@);
                    assert(kv[m as int] == keys@[m as int]@);
                    if lex_lt_exec(&keys[m], &keys[best]) {
                        proof {
                            lemma_lex_trichotomy(kv[m as int], kv[best as int]);
                            assert forall|x: int| 0 <= x < m + 1 && !used@[x] && x != m implies before(kv, m as int, x) by {
                                if x != best {
                                    lemma_before_trans(kv, m as int, best as int, x);
                                }
                            }
                        }
                        best = m;
                    } else {
                        proof {
                            lemma_lex_trichotomy(kv[m as int], kv[best as int]);
                        }
                    }
                }
            }
            m = m + 1;
        }
        proof {
            if best == n {
                let x = choose|i: int| 0 <= i < used@.len() && !used@[i];
                assert(used@[x]);
            }
        }
        let ghost old_out = out@;
        let ghost old_used = used@;
        out.push(best);
        used.set(best, true);
        proof {
            lemma_count_false_set(old_used, best as int);
            assert forall|k: int, mm: int|
                #![trigger out@[k], used@[mm]]
                0 <= k < out@.len() && 0 <= mm < n && !used@[mm] implies before(kv, out@[k] as int, mm) by {
                if k < old_out.len() {
                    assert(out@[k] == old_out[k]);
                    assert(!old_used[mm]);
                } else {
                    assert(mm != best);
                }
            }
            assert forall|k: int, l: int|
                0 <= k < l < out@.len() implies before(kv, #[trigger] out@[k] as int, #[trigger] out@[l] as int) by {
                if l == old_out.len() {
                    assert(out@[k] == old_out[k]);
                    assert(!old_used[best as int]);
                } else {
                    assert(out@[k] == old_out[k]);
                    assert(out@[l] == old_out[l]);
                }
            }
        }
    }
    proof {
        let o = out@.map_values(|i: usize| i as int);
        assert forall|k: int, l: int| 0 <= k < l < o.len() implies before(kv, #[trigger] o[k], #[trigger] o[l]) by {
            assert(o[k] == out@[k] as int);
            assert(o[l] == out@[l] as int);
        }
        assert forall|k: int| 0 <= k < o.len() implies 0 <= #[trigger] o[k] < kv.len() by {
            assert(o[k] == out@[k] as int);
        }
    }
    out
}

proof fn lemma_before_trans(keys: Seq<Seq<char>>, a: int, b: int, c: int)
    requires
        before(keys, a, b),
        before(keys, b, c),
    ensures
        before(keys, a, c),
{
    lemma_lex_trans(keys[a], keys[b], keys[c]);
}

proof fn lemma_lex_trans(a: Seq<char>, b: Seq<char>, c: Seq<char>)
    ensures
        lex_lt(a, b) && lex_lt(b, c) ==> lex_lt(a, c),
        lex_lt(a, b) && b == c ==> lex_lt(a, c),
        a == b && lex_lt(b, c) ==> lex_lt(a, c),
    decreases a.len(),
{
    if a.len() > 0 && b.len() > 0 && c.len() > 0 {
        lemma_lex_trans(a.drop_first(), b.drop_first(), c.drop_first());
    }
}

/// `s` without trailing copies of `c` (`str::trim_end_matches`).
pub open spec fn trim_end_char(s: Seq<char>, c: char) -> Seq<char>
    decreases s.len(),
{
    if s.len() > 0 && s.last() == c {
        trim_end_char(s.drop_last(), c)
    } else {
        s
    }
}

/// Removes trailing copies of `c`.
pub fn trim_end_char_exec(s: &[char], c: char) -> (r: Vec<char>)
    ensures
        r@ == trim_end_char(s@, c),
{
    let mut b: usize = s.len();
    assert(s@.take(s@.len() as int) =~= s@);
    while b > 0 && s[b - 1] == c
        invariant
            b <= s.len(),
            trim_end_char(s@.take(b as int), c) == trim_end_char(s@, c),
        decreases b,
    {
        assert(s@.take(b as int).drop_last() =~= s@.take(b - 1));
        b = b - 1;
    }
    proof {
        if b > 0 {
            assert(s@.take(b as int).last() == s@[b - 1]);
        }
    }
    assert(s@.take(b as int) =~= s@.subrange(0, b as int));
    slice(s, 0, b)
}

/// The tokens from position `from` on, joined by single spaces.
pub fn join_from(tokens: &Vec<Vec<char>>, from: usize) -> (r: String)
    requires
        from <= tokens.len(),
    ensures
        r@ == crate::text::join(views(tokens@).skip(from as int), seq![' ']),
{
    let mut rest: Vec<Vec<char>> = Vec::new();
    let mut i: usize = from;
    while i < tokens.len()
        invariant
            from <= i <= tokens.len(),
            views(rest@) == views(tokens@).subrange(from as int, i as int),
        decreases tokens.len() - i,
    {
        let ghost before = rest@;
        rest.push(slice(&tokens[i], 0, tokens[i].len()));
        assert(tokens[i as int]@.subrange(0, tokens[i as int]@.len() as int) =~= tokens[i as int]@);
        assert(views(rest@) =~= views(before).push(tokens@[i as int]@));
        assert(views(tokens@).subrange(from as int, i + 1) =~= views(tokens@).subrange(from as int, i as int).push(views(tokens@)[i as int]));
        i = i + 1;
    }
    assert(views(tokens@).subrange(from as int, tokens.len() as int) =~= views(tokens@).skip(from as int));
    let sep = [' '];
    assert(sep@ =~= seq![' ']);
    to_string(&crate::text::join_exec(&rest, &sep))
}

/// The number of `false` entries.
pub open spec fn count_false(s: Seq<bool>) -> nat
    decreases s.len(),
{
    if s.len() == 0 {
        0
    } else {
        count_false(s.drop_last()) + if s.last() {
            0nat
        } else {
            1nat
        }
    }
}

proof fn lemma_count_false_exists(s: Seq<bool>)
    requires
        count_false(s) > 0,
    ensures
        exists|i: int| 0 <= i < s.len() && !s[i],
    decreases s.len(),
{
    if !s.last() {
        assert(!s[s.len() - 1]);
    } else {
        lemma_count_false_exists(s.drop_last());
        let i = choose|i: int| 0 <= i < s.drop_last().len() && !s.drop_last()[i];
        assert(!s[i]);
    }
}

proof fn lemma_count_false_set(s: Seq<bool>, i: int)
    requires
        0 <= i < s.len(),
        !s[i],
    ensures
        count_false(s.update(i, true)) + 1 == count_false(s),
    decreases s.len(),
{
    let t = s.update(i, true);
    if i == s.len() - 1 {
        assert(t.drop_last() =~= s.drop_last());
    } else {
        lemma_count_false_set(s.drop_last(), i);
        assert(t.drop_last() =~= s.drop_last().update(i, true));
    }
}

proof fn lemma_count_false_all(n: nat)
    ensures
        count_false(Seq::new(n, |_i: int| false)) == n,
    decreases n,
{
    if n > 0 {
        lemma_count_false_all((n - 1) as nat);
        assert(Seq::new(n, |_i: int| false).drop_last() =~= Seq::new((n - 1) as nat, |_i: int| false));
    }
}

} // verus!
