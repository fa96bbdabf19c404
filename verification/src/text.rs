//! Lexicographic order on character sequences, and the string helpers the
//! rest of the library builds on: splitting, joining, trimming.
use vstd::prelude::*;

verus! {

/// Strict lexicographic order on character sequences, by code point.
pub open spec fn lex_lt(a: Seq<char>, b: Seq<char>) -> bool
    decreases a.len(),
{
    if b.len() == 0 {
        false
    } else if a.len() == 0 {
        true
    } else if (a[0] as u32) < (b[0] as u32) {
        true
    } else if (a[0] as u32) > (b[0] as u32) {
        false
    } else {
        lex_lt(a.drop_first(), b.drop_first())
    }
}

pub open spec fn strictly_sorted(s: Seq<Seq<char>>) -> bool {
    forall|i: int, j: int| 0 <= i < j < s.len() ==> lex_lt(s[i], s[j])
}

/// The views of a vector of strings.
pub open spec fn str_views(v: Seq<String>) -> Seq<Seq<char>> {
    v.map_values(|s: String| s@)
}

pub proof fn lemma_lex_lt_irrefl(a: Seq<char>)
    ensures
        !lex_lt(a, a),
    decreases a.len(),
{
    if a.len() > 0 {
        lemma_lex_lt_irrefl(a.drop_first());
    }
}

pub proof fn lemma_lex_lt_trans(a: Seq<char>, b: Seq<char>, c: Seq<char>)
    requires
        lex_lt(a, b),
        lex_lt(b, c),
    ensures
        lex_lt(a, c),
    decreases a.len(),
{
    if a.len() > 0 && b.len() > 0 && c.len() > 0 && (a[0] as u32) == (b[0] as u32) && (b[0]
        as u32) == (c[0] as u32) {
        lemma_lex_lt_trans(a.drop_first(), b.drop_first(), c.drop_first());
    }
}

/// Two sequences neither of which precedes the other are equal.
pub proof fn lemma_lex_lt_connected(a: Seq<char>, b: Seq<char>)
    requires
        !lex_lt(a, b),
        !lex_lt(b, a),
    ensures
        a == b,
    decreases a.len(),
{
    if a.len() > 0 && b.len() > 0 {
        vstd::utf8::char_u32_cast(a[0], a[0] as u32);
        vstd::utf8::char_u32_cast(b[0], b[0] as u32);
        if (a[0] as u32) == (b[0] as u32) {
            vstd::utf8::char_u32_cast(b[0], a[0] as u32);
            lemma_lex_lt_connected(a.drop_first(), b.drop_first());
            assert(a =~= seq![a[0]] + a.drop_first());
            assert(b =~= seq![b[0]] + b.drop_first());
        }
    } else {
        assert(a =~= b);
    }
}

/// Comparing suffixes after an equal prefix decides the order.
pub proof fn lemma_lex_lt_skip(a: Seq<char>, b: Seq<char>, i: int)
    requires
        0 <= i <= a.len(),
        i <= b.len(),
        forall|j: int| 0 <= j < i ==> a[j] == b[j],
    ensures
        lex_lt(a, b) == lex_lt(a.skip(i), b.skip(i)),
    decreases i,
{
    if i > 0 {
        lemma_lex_lt_skip(a.drop_first(), b.drop_first(), i - 1);
        assert(a.drop_first().skip(i - 1) =~= a.skip(i));
        assert(b.drop_first().skip(i - 1) =~= b.skip(i));
    } else {
        assert(a.skip(0) =~= a);
        assert(b.skip(0) =~= b);
    }
}

/// Whether two strings hold the same characters.
pub fn str_eq(a: &str, b: &str) -> (r: bool)
    ensures
        r == (a@ == b@),
{
    let na = a.unicode_len();
    let nb = b.unicode_len();
    if na != nb {
        assert(a@ != b@);
        return false;
    }
    let mut i: usize = 0;
    while i < na
        invariant
            na == a@.len(),
            na == b@.len(),
            0 <= i <= na,
            forall|j: int| 0 <= j < i ==> a@[j] == b@[j],
        decreases na - i,
    {
        if a.get_char(i) != b.get_char(i) {
            assert(a@ != b@);
            return false;
        }
        i = i + 1;
    }
    proof {
        assert(a@ =~= b@);
    }
    true
}

/// Whether `a` precedes `b` in lexicographic order.
pub fn str_lt(a: &str, b: &str) -> (r: bool)
    ensures
        r == lex_lt(a@, b@),
{
    let na = a.unicode_len();
    let nb = b.unicode_len();
    let n = if na < nb { na } else { nb };
    let mut i: usize = 0;
    while i < n
        invariant
            na == a@.len(),
            nb == b@.len(),
            n == if na < nb { na } else { nb },
            0 <= i <= n,
            forall|j: int| 0 <= j < i ==> a@[j] == b@[j],
        decreases n - i,
    {
        let ca = a.get_char(i);
        let cb = b.get_char(i);
        if (ca as u32) < (cb as u32) {
            proof {
                lemma_lex_lt_skip(a@, b@, i as int);
            }
            return true;
        }
        if (ca as u32) > (cb as u32) {
            proof {
                lemma_lex_lt_skip(a@, b@, i as int);
            }
            return false;
        }
        proof {
            vstd::utf8::char_u32_cast(ca, ca as u32);
            vstd::utf8::char_u32_cast(cb, ca as u32);
        }
        i = i + 1;
    }
    proof {
        lemma_lex_lt_skip(a@, b@, n as int);
    }
    na < nb
}

/// The pieces of `s` between occurrences of `sep`; always at least one piece.
pub open spec fn spec_split(s: Seq<char>, sep: char) -> Seq<Seq<char>>
    decreases s.len(),
{
    if s.len() == 0 {
        seq![Seq::<char>::empty()]
    } else if s[0] == sep {
        seq![Seq::<char>::empty()] + spec_split(s.drop_first(), sep)
    } else {
        let rest = spec_split(s.drop_first(), sep);
        seq![seq![s[0]] + rest[0]] + rest.drop_first()
    }
}

/// The pieces joined, with `sep` between each pair of neighbours.
pub open spec fn spec_join(parts: Seq<Seq<char>>, sep: Seq<char>) -> Seq<char>
    decreases parts.len(),
{
    if parts.len() == 0 {
        Seq::empty()
    } else if parts.len() == 1 {
        parts[0]
    } else {
        parts[0] + sep + spec_join(parts.drop_first(), sep)
    }
}

pub proof fn lemma_split_nonempty(s: Seq<char>, sep: char)
    ensures
        spec_split(s, sep).len() >= 1,
    decreases s.len(),
{
    if s.len() > 0 {
        lemma_split_nonempty(s.drop_first(), sep);
    }
}

/// How splitting changes when one character is appended.
pub proof fn lemma_split_push(t: Seq<char>, c: char, sep: char)
    ensures
        c == sep ==> spec_split(t.push(c), sep) =~~= spec_split(t, sep).push(
            Seq::<char>::empty(),
        ),
        c != sep ==> spec_split(t.push(c), sep) =~~= spec_split(t, sep).update(
            spec_split(t, sep).len() - 1,
            spec_split(t, sep).last().push(c),
        ),
    decreases t.len(),
{
    lemma_split_nonempty(t, sep);
    if t.len() == 0 {
        reveal_with_fuel(spec_split, 3);
        assert(t.push(c).drop_first() =~= Seq::<char>::empty());
        if c == sep {
            assert(spec_split(t.push(c), sep) =~~= spec_split(t, sep).push(
                Seq::<char>::empty(),
            ));
        } else {
            assert(spec_split(t.push(c), sep) =~~= spec_split(t, sep).update(
                0,
                spec_split(t, sep).last().push(c),
            ));
        }
    } else {
        lemma_split_push(t.drop_first(), c, sep);
        lemma_split_nonempty(t.drop_first(), sep);
        assert(t.push(c).drop_first() =~= t.drop_first().push(c));
        assert(t.push(c)[0] == t[0]);
        if c == sep {
            if t[0] == sep {
                assert(spec_split(t.push(c), sep) =~~= spec_split(t, sep).push(
                    Seq::<char>::empty(),
                ));
            } else {
                let rest = spec_split(t.drop_first(), sep);
                let rest2 = spec_split(t.drop_first().push(c), sep);
                assert(rest2 =~~= rest.push(Seq::<char>::empty()));
                assert(rest2[0] == rest[0]);
                assert(rest2.drop_first() =~~= rest.drop_first().push(Seq::<char>::empty()));
                assert(spec_split(t.push(c), sep) =~~= spec_split(t, sep).push(
                    Seq::<char>::empty(),
                ));
            }
        } else {
            if t[0] == sep {
                let rest = spec_split(t.drop_first(), sep);
                let rest2 = spec_split(t.drop_first().push(c), sep);
                assert(rest2 =~~= rest.update(rest.len() - 1, rest.last().push(c)));
                assert(spec_split(t, sep).len() == 1 + rest.len());
                assert(spec_split(t.push(c), sep) =~~= spec_split(t, sep).update(
                    spec_split(t, sep).len() - 1,
                    spec_split(t, sep).last().push(c),
                ));
            } else {
                let rest = spec_split(t.drop_first(), sep);
                let rest2 = spec_split(t.drop_first().push(c), sep);
                assert(rest2 =~~= rest.update(rest.len() - 1, rest.last().push(c)));
                if rest.len() == 1 {
                    assert(spec_split(t, sep) =~~= seq![seq![t[0]] + rest[0]]);
                    assert(spec_split(t.push(c), sep) =~~= seq![seq![t[0]] + rest2[0]]);
                    assert(seq![t[0]] + rest[0].push(c) =~= (seq![t[0]] + rest[0]).push(c));
                    assert(spec_split(t.push(c), sep) =~~= spec_split(t, sep).update(
                        spec_split(t, sep).len() - 1,
                        spec_split(t, sep).last().push(c),
                    ));
                } else {
                    assert(rest2[0] == rest[0]);
                    assert(rest2.drop_first() =~~= rest.drop_first().update(
                        rest.drop_first().len() - 1,
                        rest.drop_first().last().push(c),
                    ));
                    assert(spec_split(t.push(c), sep) =~~= spec_split(t, sep).update(
                        spec_split(t, sep).len() - 1,
                        spec_split(t, sep).last().push(c),
                    ));
                }
            }
        }
    }
}

/// How joining changes when one piece is appended.
pub proof fn lemma_join_push(parts: Seq<Seq<char>>, p: Seq<char>, sep: Seq<char>)
    ensures
        parts.len() == 0 ==> spec_join(parts.push(p), sep) =~= p,
        parts.len() > 0 ==> spec_join(parts.push(p), sep) =~= spec_join(parts, sep) + sep + p,
    decreases parts.len(),
{
    if parts.len() == 0 {
        assert(spec_join(parts.push(p), sep) =~= p);
    } else if parts.len() == 1 {
        reveal_with_fuel(spec_join, 3);
        assert(parts.push(p).drop_first() =~~= seq![p]);
        assert(spec_join(parts.push(p), sep) =~= parts[0] + sep + p);
    } else {
        lemma_join_push(parts.drop_first(), p, sep);
        assert(parts.push(p).drop_first() =~~= parts.drop_first().push(p));
        assert(spec_join(parts.push(p), sep) =~= spec_join(parts, sep) + sep + p);
    }
}

/// Splits `s` at every occurrence of `sep`.
pub fn split_on(s: &str, sep: char) -> (r: Vec<String>)
    ensures
        str_views(r@) =~~= spec_split(s@, sep),
{
    let n = s.unicode_len();
    let mut parts: Vec<String> = Vec::new();
    let mut start: usize = 0;
    let mut i: usize = 0;
    while i < n
        invariant
            n == s@.len(),
            0 <= start <= i <= n,
            spec_split(s@.take(i as int), sep) =~~= str_views(parts@) + seq![
                s@.subrange(start as int, i as int),
            ],
        decreases n - i,
    {
        let c = s.get_char(i);
        proof {
            assert(s@.take(i as int + 1) =~= s@.take(i as int).push(s@[i as int]));
            lemma_split_push(s@.take(i as int), s@[i as int], sep);
            lemma_split_nonempty(s@.take(i as int), sep);
        }
        if c == sep {
            let ghost prev = parts@;
            let ghost piece_view = s@.subrange(start as int, i as int);
            let piece = String::from_str(s.substring_char(start, i));
            parts.push(piece);
            start = i + 1;
            proof {
                assert(str_views(parts@) =~~= str_views(prev).push(piece_view));
                assert(s@.subrange(start as int, i as int + 1) =~= Seq::<char>::empty());
                assert(spec_split(s@.take(i as int + 1), sep) =~~= str_views(parts@) + seq![
                    s@.subrange(start as int, i as int + 1),
                ]);
            }
        } else {
            proof {
                assert(s@.subrange(start as int, i as int).push(s@[i as int]) =~= s@.subrange(
                    start as int,
                    i as int + 1,
                ));
                assert(spec_split(s@.take(i as int + 1), sep) =~~= str_views(parts@) + seq![
                    s@.subrange(start as int, i as int + 1),
                ]);
            }
        }
        i = i + 1;
    }
    proof {
        assert(s@.take(n as int) =~= s@);
    }
    let ghost prev = parts@;
    let piece = String::from_str(s.substring_char(start, n));
    parts.push(piece);
    proof {
        assert(str_views(parts@) =~~= str_views(prev).push(s@.subrange(start as int, n as int)));
    }
    parts
}

/// Joins the pieces from index `start` on, with `sep` between neighbours.
pub fn join_from(parts: &Vec<String>, start: usize, sep: &str) -> (r: String)
    requires
        start <= parts.len(),
    ensures
        r@ == spec_join(str_views(parts@).skip(start as int), sep@),
{
    let ghost tail = str_views(parts@).skip(start as int);
    if start >= parts.len() {
        proof {
            assert(tail =~~= Seq::<Seq<char>>::empty());
        }
        return String::new();
    }
    let mut acc = parts[start].clone();
    let mut k: usize = start + 1;
    proof {
        assert(tail.take(1) =~~= seq![str_views(parts@)[start as int]]);
    }
    while k < parts.len()
        invariant
            start < k <= parts.len(),
            tail == str_views(parts@).skip(start as int),
            acc@ == spec_join(tail.take(k - start as int), sep@),
        decreases parts.len() - k,
    {
        proof {
            lemma_join_push(tail.take(k - start as int), tail[k - start as int], sep@);
            assert(tail.take(k + 1 - start as int) =~~= tail.take(k - start as int).push(
                tail[k - start as int],
            ));
        }
        acc.append(sep);
        acc.append(parts[k].as_str());
        k = k + 1;
    }
    proof {
        assert(tail.take(parts.len() - start as int) =~~= tail);
    }
    acc
}

pub open spec fn spec_has_prefix(s: Seq<char>, p: Seq<char>) -> bool {
    s.len() >= p.len() && s.take(p.len() as int) == p
}

/// The rest of `s` after `prefix`, when `s` starts with it.
pub fn strip_prefix_str<'a>(s: &'a str, prefix: &str) -> (r: Option<&'a str>)
    ensures
        match r {
            Some(t) => spec_has_prefix(s@, prefix@) && t@ == s@.skip(prefix@.len() as int),
            None => !spec_has_prefix(s@, prefix@),
        },
{
    let n = s.unicode_len();
    let np = prefix.unicode_len();
    if n < np {
        return None;
    }
    let mut i: usize = 0;
    while i < np
        invariant
            n == s@.len(),
            np == prefix@.len(),
            np <= n,
            0 <= i <= np,
            forall|j: int| 0 <= j < i ==> s@[j] == prefix@[j],
        decreases np - i,
    {
        if s.get_char(i) != prefix.get_char(i) {
            assert(s@.take(np as int)[i as int] != prefix@[i as int]);
            return None;
        }
        i = i + 1;
    }
    proof {
        assert(s@.take(np as int) =~= prefix@);
        assert(s@.subrange(np as int, n as int) =~= s@.skip(np as int));
    }
    Some(s.substring_char(np, n))
}

pub open spec fn is_space_char(c: char) -> bool {
    c == ' ' || c == '\t' || c == '\r' || c == '\n'
}

pub open spec fn spec_trim_start(s: Seq<char>) -> Seq<char>
    decreases s.len(),
{
    if s.len() > 0 && is_space_char(s[0]) {
        spec_trim_start(s.drop_first())
    } else {
        s
    }
}

pub open spec fn spec_trim_end(s: Seq<char>) -> Seq<char>
    decreases s.len(),
{
    if s.len() > 0 && is_space_char(s.last()) {
        spec_trim_end(s.drop_last())
    } else {
        s
    }
}

/// The string with leading and trailing whitespace removed.
pub open spec fn spec_trim(s: Seq<char>) -> Seq<char> {
    spec_trim_end(spec_trim_start(s))
}

proof fn lemma_trim_start_skip(s: Seq<char>, i: int)
    requires
        0 <= i <= s.len(),
        forall|j: int| 0 <= j < i ==> is_space_char(s[j]),
    ensures
        spec_trim_start(s) == spec_trim_start(s.skip(i)),
    decreases i,
{
    if i > 0 {
        lemma_trim_start_skip(s.drop_first(), i - 1);
        assert(s.drop_first().skip(i - 1) =~= s.skip(i));
    } else {
        assert(s.skip(0) =~= s);
    }
}

proof fn lemma_trim_end_take(s: Seq<char>, i: int)
    requires
        0 <= i <= s.len(),
        forall|j: int| i <= j < s.len() ==> is_space_char(s[j]),
    ensures
        spec_trim_end(s) == spec_trim_end(s.take(i)),
    decreases s.len() - i,
{
    if i < s.len() {
        lemma_trim_end_take(s.drop_last(), i);
        assert(s.drop_last().take(i) =~= s.take(i));
    } else {
        assert(s.take(i) =~= s);
    }
}

fn is_space(c: char) -> (r: bool)
    ensures
        r == is_space_char(c),
{
    c == ' ' || c == '\t' || c == '\r' || c == '\n'
}

/// The string with leading and trailing whitespace removed.
pub fn trim_str(s: &str) -> (r: String)
    ensures
        r@ == spec_trim(s@),
{
    let n = s.unicode_len();
    let mut lo: usize = 0;
    while lo < n && is_space(s.get_char(lo))
        invariant
            n == s@.len(),
            0 <= lo <= n,
            forall|j: int| 0 <= j < lo ==> is_space_char(s@[j]),
        decreases n - lo,
    {
        lo = lo + 1;
    }
    proof {
        lemma_trim_start_skip(s@, lo as int);
        if lo < n {
            assert(spec_trim_start(s@.skip(lo as int)) == s@.skip(lo as int));
        } else {
            assert(s@.skip(lo as int) =~= Seq::<char>::empty());
        }
    }
    let ghost t = s@.skip(lo as int);
    let mut hi: usize = n;
    while hi > lo && is_space(s.get_char(hi - 1))
        invariant
            n == s@.len(),
            lo <= hi <= n,
            forall|j: int| hi <= j < n ==> is_space_char(s@[j]),
        decreases hi,
    {
        hi = hi - 1;
    }
    proof {
        assert(forall|j: int|
            hi - lo <= j < t.len() ==> is_space_char(#[trigger] t[j]) && t[j] == s@[j + lo]);
        lemma_trim_end_take(t, hi - lo as int);
        assert(t.take(hi - lo as int) =~= s@.subrange(lo as int, hi as int));
        if hi > lo {
            assert(!is_space_char(s@.subrange(lo as int, hi as int).last()));
            assert(spec_trim_end(s@.subrange(lo as int, hi as int)) == s@.subrange(
                lo as int,
                hi as int,
            ));
        } else {
            assert(s@.subrange(lo as int, hi as int) =~= Seq::<char>::empty());
        }
    }
    String::from_str(s.substring_char(lo, hi))
}

/// The string with every trailing occurrence of `c` removed.
pub open spec fn spec_strip_trailing(s: Seq<char>, c: char) -> Seq<char>
    decreases s.len(),
{
    if s.len() > 0 && s.last() == c {
        spec_strip_trailing(s.drop_last(), c)
    } else {
        s
    }
}

proof fn lemma_strip_trailing_take(s: Seq<char>, c: char, i: int)
    requires
        0 <= i <= s.len(),
        forall|j: int| i <= j < s.len() ==> s[j] == c,
    ensures
        spec_strip_trailing(s, c) == spec_strip_trailing(s.take(i), c),
    decreases s.len() - i,
{
    if i < s.len() {
        lemma_strip_trailing_take(s.drop_last(), c, i);
        assert(s.drop_last().take(i) =~= s.take(i));
    } else {
        assert(s.take(i) =~= s);
    }
}

/// The prefix of `s` left once every trailing occurrence of `c` is dropped.
pub fn strip_trailing<'a>(s: &'a str, c: char) -> (r: &'a str)
    ensures
        r@ == spec_strip_trailing(s@, c),
{
    let n = s.unicode_len();
    let mut hi: usize = n;
    while hi > 0 && s.get_char(hi - 1) == c
        invariant
            n == s@.len(),
            0 <= hi <= n,
            forall|j: int| hi <= j < n ==> s@[j] == c,
        decreases hi,
    {
        hi = hi - 1;
    }
    proof {
        lemma_strip_trailing_take(s@, c, hi as int);
        assert(s@.take(hi as int) =~= s@.subrange(0, hi as int));
        if hi > 0 {
            assert(s@.take(hi as int).last() != c);
            assert(spec_strip_trailing(s@.take(hi as int), c) == s@.take(hi as int));
        } else {
            assert(s@.take(0) =~= Seq::<char>::empty());
        }
    }
    s.substring_char(0, hi)
}

/// A string without the separator splits into itself alone.
pub proof fn lemma_split_no_sep(a: Seq<char>, sep: char)
    requires
        forall|i: int| 0 <= i < a.len() ==> a[i] != sep,
    ensures
        spec_split(a, sep) =~~= seq![a],
    decreases a.len(),
{
    if a.len() > 0 {
        lemma_split_no_sep(a.drop_first(), sep);
        assert(seq![a[0]] + a.drop_first() =~= a);
    }
}

/// Splitting starts over after a separator that follows a clean piece.
pub proof fn lemma_split_concat(a: Seq<char>, t: Seq<char>, sep: char)
    requires
        forall|i: int| 0 <= i < a.len() ==> a[i] != sep,
    ensures
        spec_split(a + seq![sep] + t, sep) =~~= seq![a] + spec_split(t, sep),
    decreases a.len(),
{
    lemma_split_nonempty(t, sep);
    if a.len() == 0 {
        assert(a + seq![sep] + t =~= seq![sep] + t);
        assert((seq![sep] + t)[0] == sep);
        assert((seq![sep] + t).drop_first() =~= t);
        assert(spec_split(a + seq![sep] + t, sep) =~~= seq![Seq::<char>::empty()] + spec_split(
            t,
            sep,
        ));
    } else {
        lemma_split_concat(a.drop_first(), t, sep);
        let s = a + seq![sep] + t;
        assert(s[0] == a[0]);
        assert(s.drop_first() =~= a.drop_first() + seq![sep] + t);
        let r = spec_split(a.drop_first() + seq![sep] + t, sep);
        assert(r =~~= seq![a.drop_first()] + spec_split(t, sep));
        assert(r[0] == a.drop_first());
        assert(r.drop_first() =~~= spec_split(t, sep));
        assert(seq![a[0]] + a.drop_first() =~= a);
        assert(spec_split(s, sep) =~~= seq![seq![a[0]] + r[0]] + r.drop_first());
    }
}

/// One space at each edge of a clean string trims away.
pub proof fn lemma_trim_padded(s: Seq<char>)
    requires
        s.len() > 0 ==> !is_space_char(s[0]) && !is_space_char(s.last()),
    ensures
        spec_trim(s + seq![' ']) == s,
        spec_trim(seq![' '] + s + seq![' ']) == s,
    decreases s.len(),
{
    let t1 = s + seq![' '];
    let t2 = seq![' '] + s + seq![' '];
    if s.len() == 0 {
        assert(t1 =~= seq![' ']);
        assert(t2 =~= seq![' ', ' ']);
        reveal_with_fuel(spec_trim_start, 4);
        assert(t1.drop_first() =~= Seq::<char>::empty());
        assert(t2.drop_first() =~= seq![' ']);
        assert(spec_trim_start(t1) == Seq::<char>::empty());
        assert(spec_trim_start(t2) == Seq::<char>::empty());
    } else {
        assert(t1[0] == s[0] && !is_space_char(t1[0]));
        assert(spec_trim_start(t1) == t1);
        assert(t1.last() == ' ');
        assert(t1.drop_last() =~= s);
        assert(spec_trim_end(t1) == spec_trim_end(s));
        assert(spec_trim_end(s) == s);
        assert(t2[0] == ' ');
        assert(t2.drop_first() =~= t1);
        assert(spec_trim_start(t2) == spec_trim_start(t1));
        assert(spec_trim(t2) == spec_trim_end(t1));
    }
}

/// The string with every occurrence of `from` replaced by `to`.
pub open spec fn spec_replace(s: Seq<char>, from: char, to: char) -> Seq<char> {
    s.map_values(|c: char| if c == from { to } else { c })
}

/// The string with every occurrence of `c` removed.
pub open spec fn spec_remove(s: Seq<char>, c: char) -> Seq<char>
    decreases s.len(),
{
    if s.len() == 0 {
        Seq::empty()
    } else if s[0] == c {
        spec_remove(s.drop_first(), c)
    } else {
        seq![s[0]] + spec_remove(s.drop_first(), c)
    }
}

/// Joining the pieces of `s` around `c` with `d` replaces `c` by `d`.
pub proof fn lemma_join_split_replace(s: Seq<char>, c: char, d: char)
    ensures
        spec_join(spec_split(s, c), seq![d]) =~= spec_replace(s, c, d),
    decreases s.len(),
{
    lemma_split_nonempty(s, c);
    if s.len() == 0 {
    } else {
        lemma_join_split_replace(s.drop_first(), c, d);
        let r = spec_split(s.drop_first(), c);
        lemma_split_nonempty(s.drop_first(), c);
        assert(spec_replace(s, c, d) =~= seq![if s[0] == c {
            d
        } else {
            s[0]
        }] + spec_replace(s.drop_first(), c, d));
        if s[0] == c {
            assert(spec_split(s, c) =~~= seq![Seq::<char>::empty()] + r);
            if r.len() == 1 {
                reveal_with_fuel(spec_join, 3);
                assert(spec_join(spec_split(s, c), seq![d]) =~= seq![d] + spec_join(r, seq![d]));
            } else {
                assert((seq![Seq::<char>::empty()] + r).drop_first() =~~= r);
                assert(spec_join(spec_split(s, c), seq![d]) =~= seq![d] + spec_join(r, seq![d]));
            }
        } else {
            let head = seq![s[0]] + r[0];
            assert(spec_split(s, c) =~~= seq![head] + r.drop_first());
            if r.len() == 1 {
                assert(spec_split(s, c) =~~= seq![head]);
                assert(spec_join(spec_split(s, c), seq![d]) == head);
                assert(spec_join(r, seq![d]) == r[0]);
                assert(head =~= seq![s[0]] + spec_join(r, seq![d]));
            } else {
                assert((seq![head] + r.drop_first()).drop_first() =~~= r.drop_first());
                assert(spec_join(spec_split(s, c), seq![d]) =~= head + seq![d] + spec_join(
                    r.drop_first(),
                    seq![d],
                ));
                assert(spec_join(r, seq![d]) =~= r[0] + seq![d] + spec_join(
                    r.drop_first(),
                    seq![d],
                ));
                assert(head + seq![d] + spec_join(r.drop_first(), seq![d]) =~= seq![s[0]]
                    + spec_join(r, seq![d]));
            }
        }
    }
}

/// Concatenating the pieces of `s` around `c` removes `c`.
pub proof fn lemma_join_split_remove(s: Seq<char>, c: char)
    ensures
        spec_join(spec_split(s, c), Seq::<char>::empty()) =~= spec_remove(s, c),
    decreases s.len(),
{
    lemma_split_nonempty(s, c);
    if s.len() == 0 {
    } else {
        lemma_join_split_remove(s.drop_first(), c);
        let r = spec_split(s.drop_first(), c);
        lemma_split_nonempty(s.drop_first(), c);
        let e = Seq::<char>::empty();
        if s[0] == c {
            assert(spec_split(s, c) =~~= seq![Seq::<char>::empty()] + r);
            if r.len() == 1 {
                reveal_with_fuel(spec_join, 3);
                assert(spec_join(spec_split(s, c), e) =~= e + spec_join(r, e));
            } else {
                assert((seq![Seq::<char>::empty()] + r).drop_first() =~~= r);
                assert(spec_join(spec_split(s, c), e) =~= e + spec_join(r, e));
            }
            assert(e + spec_join(r, e) =~= spec_join(r, e));
        } else {
            let head = seq![s[0]] + r[0];
            assert(spec_split(s, c) =~~= seq![head] + r.drop_first());
            if r.len() == 1 {
                assert(spec_split(s, c) =~~= seq![head]);
                assert(spec_join(spec_split(s, c), e) == head);
                assert(spec_join(r, e) == r[0]);
                assert(head =~= seq![s[0]] + spec_join(r, e));
            } else {
                assert((seq![head] + r.drop_first()).drop_first() =~~= r.drop_first());
                assert(spec_join(spec_split(s, c), e) =~= head + e + spec_join(
                    r.drop_first(),
                    e,
                ));
                assert(spec_join(r, e) =~= r[0] + e + spec_join(r.drop_first(), e));
                assert(head + e + spec_join(r.drop_first(), e) =~= seq![s[0]] + spec_join(r, e));
            }
            assert(spec_remove(s, c) =~= seq![s[0]] + spec_remove(s.drop_first(), c));
        }
    }
}

} // verus!
