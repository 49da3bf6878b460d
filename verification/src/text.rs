//! Character-level text utilities with exact specifications.
//!
//! Strings are modelled by their character sequences (`s@: Seq<char>`).
//! The spec functions here state what the corresponding operations of
//! `str` compute (`trim`, `lines`, `find`, `replace`, `contains`, joining,
//! decimal formatting); the executable functions are proved against them.
use vstd::prelude::*;
use vstd::std_specs::iter::IteratorSpec;

verus! {

broadcast use vstd::string::group_string_axioms;

// ---------------------------------------------------------------------------
// Specifications
// ---------------------------------------------------------------------------

/// Unicode `White_Space`, the property that `char::is_whitespace` and
/// `str::trim` go by.
pub open spec fn is_ws(c: char) -> bool {
    ||| ('\u{9}' <= c && c <= '\u{d}')
    ||| c == ' '
    ||| c == '\u{85}'
    ||| c == '\u{a0}'
    ||| c == '\u{1680}'
    ||| ('\u{2000}' <= c && c <= '\u{200a}')
    ||| c == '\u{2028}'
    ||| c == '\u{2029}'
    ||| c == '\u{202f}'
    ||| c == '\u{205f}'
    ||| c == '\u{3000}'
}

/// `s` without its leading whitespace.
pub open spec fn trim_start(s: Seq<char>) -> Seq<char>
    decreases s.len(),
{
    if s.len() > 0 && is_ws(s[0]) {
        trim_start(s.drop_first())
    } else {
        s
    }
}

/// `s` without its trailing whitespace.
pub open spec fn trim_end(s: Seq<char>) -> Seq<char>
    decreases s.len(),
{
    if s.len() > 0 && is_ws(s.last()) {
        trim_end(s.drop_last())
    } else {
        s
    }
}

/// `str::trim`: leading and trailing whitespace removed.
pub open spec fn trim(s: Seq<char>) -> Seq<char> {
    trim_end(trim_start(s))
}

/// Index of the first `c` in `s`, or `s.len()` when there is none.
pub open spec fn first_index_of(s: Seq<char>, c: char) -> nat
    decreases s.len(),
{
    if s.len() == 0 {
        0
    } else if s[0] == c {
        0
    } else {
        1 + first_index_of(s.drop_first(), c)
    }
}

/// One trailing carriage return removed.
pub open spec fn strip_cr(s: Seq<char>) -> Seq<char> {
    if s.len() > 0 && s.last() == '\r' {
        s.drop_last()
    } else {
        s
    }
}

/// `str::lines`: the text split at `\n` and `\r\n`; a final line ending
/// adds no empty line.
pub open spec fn lines(s: Seq<char>) -> Seq<Seq<char>>
    decreases s.len(),
{
    if s.len() == 0 {
        seq![]
    } else {
        let i = first_index_of(s, '\n');
        if i < s.len() {
            seq![strip_cr(s.take(i as int))] + lines(s.skip(i as int + 1))
        } else {
            seq![s]
        }
    }
}

/// `p` occurs in `s` at position `i`.
pub open spec fn matches_at(s: Seq<char>, p: Seq<char>, i: int) -> bool {
    0 <= i && i + p.len() <= s.len() && s.subrange(i, i + p.len()) == p
}

/// `str::find`: the position of the first occurrence of `p` in `s`.
pub open spec fn find(s: Seq<char>, p: Seq<char>) -> Option<nat>
    decreases s.len(),
{
    if s.len() < p.len() {
        None
    } else if s.take(p.len() as int) == p {
        Some(0)
    } else if s.len() == 0 {
        None
    } else {
        match find(s.drop_first(), p) {
            Some(k) => Some(k + 1),
            None => None,
        }
    }
}

/// `str::contains`.
pub open spec fn contains(s: Seq<char>, p: Seq<char>) -> bool {
    find(s, p) is Some
}

/// `str::replace` with a non-empty pattern: every non-overlapping
/// occurrence of `p`, from left to right, replaced by `r`.
pub open spec fn replace_all(s: Seq<char>, p: Seq<char>, r: Seq<char>) -> Seq<char>
    decreases s.len(),
{
    if p.len() == 0 || s.len() < p.len() {
        s
    } else if s.take(p.len() as int) == p {
        r + replace_all(s.skip(p.len() as int), p, r)
    } else {
        seq![s[0]] + replace_all(s.drop_first(), p, r)
    }
}

/// `[T]::join`: the pieces with `sep` between each two of them.
pub open spec fn join(ls: Seq<Seq<char>>, sep: Seq<char>) -> Seq<char>
    decreases ls.len(),
{
    if ls.len() == 0 {
        seq![]
    } else if ls.len() == 1 {
        ls[0]
    } else {
        join(ls.drop_last(), sep) + sep + ls.last()
    }
}

/// The ASCII digit for `d < 10`.
pub open spec fn digit_char(d: nat) -> char {
    (d + 48) as char
}

/// An ASCII decimal digit.
pub open spec fn is_digit(c: char) -> bool {
    '0' <= c && c <= '9'
}

/// Decimal representation of `n`, as `{}` formats an unsigned integer.
pub open spec fn dec(n: nat) -> Seq<char>
    decreases n,
{
    if n < 10 {
        seq![digit_char(n)]
    } else {
        dec(n / 10).push(digit_char(n % 10))
    }
}

/// `s` padded on the left with `'0'` to at least `w` characters,
/// as `{:0w}` pads a number.
pub open spec fn zero_pad(s: Seq<char>, w: nat) -> Seq<char> {
    if s.len() < w {
        Seq::new((w - s.len()) as nat, |i: int| '0') + s
    } else {
        s
    }
}

/// Numeric value of a sequence of decimal digits.
pub open spec fn digits_value(d: Seq<char>) -> nat
    decreases d.len(),
{
    if d.len() == 0 {
        0
    } else {
        10 * digits_value(d.drop_last()) + ((d.last() as int - 48) as nat)
    }
}

/// The digits part of an unsigned number: `s` without one leading `+`.
pub open spec fn u32_digits(s: Seq<char>) -> Seq<char> {
    if s.len() > 0 && s[0] == '+' {
        s.drop_first()
    } else {
        s
    }
}

/// Every character is an ASCII digit.
pub open spec fn all_digits(d: Seq<char>) -> bool {
    forall|i: int| 0 <= i < d.len() ==> is_digit(#[trigger] d[i])
}

/// `s.parse::<u32>().is_ok()`: an optional `+`, then at least one ASCII
/// digit, with a value that fits in a `u32`.
pub open spec fn is_u32_text(s: Seq<char>) -> bool {
    &&& u32_digits(s).len() > 0
    &&& all_digits(u32_digits(s))
    &&& digits_value(u32_digits(s)) <= u32::MAX
}

/// The first line of `s`, as `s.lines().next().unwrap_or("")`.
pub open spec fn first_line(s: Seq<char>) -> Seq<char> {
    if lines(s).len() > 0 {
        lines(s)[0]
    } else {
        seq![]
    }
}

// ---------------------------------------------------------------------------
// Lemmas
// ---------------------------------------------------------------------------

pub proof fn lemma_first_index_of(s: Seq<char>, c: char, m: int)
    requires
        0 <= m <= s.len(),
        forall|k: int| 0 <= k < m ==> s[k] != c,
        m == s.len() || s[m] == c,
    ensures
        first_index_of(s, c) == m,
    decreases s.len(),
{
    if s.len() > 0 && s[0] != c {
        lemma_first_index_of(s.drop_first(), c, m - 1);
    }
}

pub proof fn lemma_first_index_of_bound(s: Seq<char>, c: char)
    ensures
        first_index_of(s, c) <= s.len(),
        first_index_of(s, c) < s.len() ==> s[first_index_of(s, c) as int] == c,
        forall|k: int| 0 <= k < first_index_of(s, c) ==> s[k] != c,
    decreases s.len(),
{
    if s.len() > 0 && s[0] != c {
        lemma_first_index_of_bound(s.drop_first(), c);
        assert forall|k: int| 0 <= k < first_index_of(s, c) implies s[k] != c by {
            if k > 0 {
                assert(s[k] == s.drop_first()[k - 1]);
            }
        }
    }
}

/// `find` is the first position at which the pattern occurs.
pub proof fn lemma_find(s: Seq<char>, p: Seq<char>)
    ensures
        match find(s, p) {
            Some(i) => matches_at(s, p, i as int) && forall|j: int|
                0 <= j < i ==> !matches_at(s, p, j),
            None => forall|j: int| !matches_at(s, p, j),
        },
    decreases s.len(),
{
    if s.len() < p.len() {
    } else if s.take(p.len() as int) == p {
        assert(s.subrange(0, p.len() as int) == s.take(p.len() as int));
    } else if s.len() == 0 {
        assert(s.take(p.len() as int) =~= p);
    } else {
        let t = s.drop_first();
        lemma_find(t, p);
        assert forall|j: int| 0 <= j && matches_at(s, p, j + 1) implies matches_at(t, p, j) by {
            assert(t.subrange(j, j + p.len()) =~= s.subrange(j + 1, j + 1 + p.len()));
        }
        assert forall|j: int| matches_at(t, p, j) implies matches_at(s, p, j + 1) by {
            assert(t.subrange(j, j + p.len()) =~= s.subrange(j + 1, j + 1 + p.len()));
        }
        assert(!matches_at(s, p, 0)) by {
            assert(s.subrange(0, p.len() as int) == s.take(p.len() as int));
        }
        match find(t, p) {
            Some(i) => {
                assert forall|j: int| 0 <= j < i + 1 implies !matches_at(s, p, j) by {
                    if j > 0 {
                        assert(!matches_at(t, p, j - 1));
                    }
                }
            },
            None => {
                assert forall|j: int| !matches_at(s, p, j) by {
                    if j > 0 {
                        assert(!matches_at(t, p, j - 1));
                    }
                }
            },
        }
    }
}

/// The first occurrence determines `find`.
pub proof fn lemma_find_first(s: Seq<char>, p: Seq<char>, i: int)
    requires
        matches_at(s, p, i),
        forall|j: int| 0 <= j < i ==> !matches_at(s, p, j),
    ensures
        find(s, p) == Some(i as nat),
{
    lemma_find(s, p);
}

/// No occurrence means `find` gives `None`.
pub proof fn lemma_find_none(s: Seq<char>, p: Seq<char>)
    requires
        forall|j: int| 0 <= j && j + p.len() <= s.len() ==> !matches_at(s, p, j),
    ensures
        find(s, p) is None,
{
    lemma_find(s, p);
}

pub proof fn lemma_trim_start_skip(s: Seq<char>, a: int)
    requires
        0 <= a <= s.len(),
        forall|k: int| 0 <= k < a ==> is_ws(s[k]),
    ensures
        trim_start(s) == trim_start(s.skip(a)),
    decreases a,
{
    if a > 0 {
        assert(s.drop_first().skip(a - 1) =~= s.skip(a));
        lemma_trim_start_skip(s.drop_first(), a - 1);
    } else {
        assert(s.skip(0) =~= s);
    }
}

pub proof fn lemma_trim_end_take(s: Seq<char>, b: int)
    requires
        0 <= b <= s.len(),
        forall|k: int| b <= k < s.len() ==> is_ws(s[k]),
    ensures
        trim_end(s) == trim_end(s.take(b)),
    decreases s.len() - b,
{
    if b < s.len() {
        assert(s.drop_last().take(b) =~= s.take(b));
        lemma_trim_end_take(s.drop_last(), b);
    } else {
        assert(s.take(b) =~= s);
    }
}


/// A text ending in a line feed splits into its own lines followed by
/// those of what comes after it.
pub proof fn lemma_lines_append(a: Seq<char>, b: Seq<char>)
    requires
        a.len() > 0,
        a.last() == '\n',
    ensures
        lines(a + b) == lines(a) + lines(b),
    decreases a.len(),
{
    let ab = a + b;
    lemma_first_index_of_bound(a, '\n');
    let i = first_index_of(a, '\n');
    assert(i < a.len()) by {
        if i >= a.len() {
            assert(a[a.len() - 1] == '\n');
        }
    }
    assert forall|k: int| 0 <= k < i implies ab[k] != '\n' by {
        assert(ab[k] == a[k]);
    }
    lemma_first_index_of(ab, '\n', i as int);
    assert(ab.take(i as int) =~= a.take(i as int));
    assert(ab.skip(i as int + 1) =~= a.skip(i as int + 1) + b);
    if i + 1 == a.len() {
        assert(a.skip(i as int + 1) =~= Seq::<char>::empty());
        assert(a.skip(i as int + 1) + b =~= b);
        assert(lines(a.skip(i as int + 1)) =~= Seq::<Seq<char>>::empty());
        assert(lines(a) =~= seq![strip_cr(a.take(i as int))]);
    } else {
        let a2 = a.skip(i as int + 1);
        assert(a2.last() == a.last());
        lemma_lines_append(a2, b);
        assert(lines(ab) =~= seq![strip_cr(a.take(i as int))] + (lines(a2) + lines(b)));
    }
}

/// A line without line feed, not ending in a carriage return, followed by
/// a line feed is that one line.
pub proof fn lemma_lines_single(x: Seq<char>)
    requires
        forall|k: int| 0 <= k < x.len() ==> x[k] != '\n',
        x.len() == 0 || x.last() != '\r',
    ensures
        lines(x + seq!['\n']) == seq![x],
{
    let y = x + seq!['\n'];
    assert forall|k: int| 0 <= k < x.len() implies y[k] != '\n' by {
        assert(y[k] == x[k]);
    }
    lemma_first_index_of(y, '\n', x.len() as int);
    assert(y.take(x.len() as int) =~= x);
    assert(y.skip(x.len() as int + 1) =~= Seq::<char>::empty());
    assert(lines(y.skip(x.len() as int + 1)) =~= Seq::<Seq<char>>::empty());
    assert(lines(y) =~= seq![strip_cr(x)]);
}

/// Adding a final line feed to a text that does not end a line keeps its
/// lines.
pub proof fn lemma_lines_add_newline(t: Seq<char>)
    requires
        t.len() > 0,
        t.last() != '\n',
        t.last() != '\r',
    ensures
        lines(t + seq!['\n']) == lines(t),
    decreases t.len(),
{
    let y = t + seq!['\n'];
    lemma_first_index_of_bound(t, '\n');
    let i = first_index_of(t, '\n');
    if i < t.len() {
        assert forall|k: int| 0 <= k < i implies y[k] != '\n' by {
            assert(y[k] == t[k]);
        }
        assert(y[i as int] == '\n');
        lemma_first_index_of(y, '\n', i as int);
        assert(y.take(i as int) =~= t.take(i as int));
        let t2 = t.skip(i as int + 1);
        assert(t2.len() > 0) by {
            if t2.len() == 0 {
                assert(i == t.len() - 1);
            }
        }
        assert(t2.last() == t.last());
        assert(y.skip(i as int + 1) =~= t2 + seq!['\n']);
        lemma_lines_add_newline(t2);
    } else {
        assert forall|k: int| 0 <= k < t.len() implies y[k] != '\n' by {
            assert(y[k] == t[k]);
        }
        lemma_first_index_of(y, '\n', t.len() as int);
        lemma_lines_single(t);
    }
}

pub proof fn lemma_trim_start_len(s: Seq<char>)
    ensures
        trim_start(s).len() <= s.len(),
        trim_start(s).len() == s.len() ==> trim_start(s) == s,
    decreases s.len(),
{
    if s.len() > 0 && is_ws(s[0]) {
        lemma_trim_start_len(s.drop_first());
    }
}

pub proof fn lemma_trim_end_len(s: Seq<char>)
    ensures
        trim_end(s).len() <= s.len(),
        trim_end(s).len() == s.len() ==> trim_end(s) == s,
    decreases s.len(),
{
    if s.len() > 0 && is_ws(s.last()) {
        lemma_trim_end_len(s.drop_last());
    }
}

/// A trimmed text neither starts nor ends with whitespace.
pub proof fn lemma_trimmed(s: Seq<char>)
    requires
        trim(s) == s,
    ensures
        trim_start(s) == s,
        trim_end(s) == s,
        s.len() > 0 ==> !is_ws(s[0]) && !is_ws(s.last()),
{
    lemma_trim_start_len(s);
    lemma_trim_end_len(trim_start(s));
    assert(trim_start(s) == s);
    if s.len() > 0 && is_ws(s[0]) {
        lemma_trim_start_len(s.drop_first());
    }
    if s.len() > 0 && is_ws(s.last()) {
        lemma_trim_end_len(s.drop_last());
    }
}

/// A text that neither starts nor ends with whitespace is trimmed.
pub proof fn lemma_trim_id(s: Seq<char>)
    requires
        s.len() > 0 ==> !is_ws(s[0]) && !is_ws(s.last()),
    ensures
        trim(s) == s,
{
}

/// The decimal representation is a non-empty run of digits.
pub proof fn lemma_dec_digits(n: nat)
    ensures
        dec(n).len() > 0,
        all_digits(dec(n)),
    decreases n,
{
    if n >= 10 {
        lemma_dec_digits(n / 10);
        let d = dec(n / 10).push(digit_char(n % 10));
        assert forall|i: int| 0 <= i < d.len() implies is_digit(#[trigger] d[i]) by {
            if i < d.len() - 1 {
                assert(d[i] == dec(n / 10)[i]);
            }
        }
    }
}

/// A joined text ends where its last piece ends.
pub proof fn lemma_join_last(ls: Seq<Seq<char>>, sep: Seq<char>)
    requires
        ls.len() > 0,
        ls.last().len() > 0,
    ensures
        join(ls, sep).len() > 0,
        join(ls, sep).last() == ls.last().last(),
{
}


/// `trim_start` drops a prefix; what it keeps does not start with
/// whitespace.
pub proof fn lemma_trim_start_suffix(s: Seq<char>)
    ensures
        trim_start(s) == s.skip(s.len() - trim_start(s).len()),
        trim_start(s).len() > 0 ==> !is_ws(trim_start(s)[0]),
    decreases s.len(),
{
    lemma_trim_start_len(s);
    if s.len() > 0 && is_ws(s[0]) {
        lemma_trim_start_suffix(s.drop_first());
        lemma_trim_start_len(s.drop_first());
        let t = s.drop_first();
        assert(t.skip(t.len() - trim_start(t).len()) =~= s.skip(s.len() - trim_start(t).len()));
    } else {
        assert(s.skip(0) =~= s);
    }
}

/// `trim_end` drops a suffix; what it keeps does not end with whitespace.
pub proof fn lemma_trim_end_prefix(s: Seq<char>)
    ensures
        trim_end(s) == s.take(trim_end(s).len() as int),
        trim_end(s).len() > 0 ==> !is_ws(trim_end(s).last()),
    decreases s.len(),
{
    lemma_trim_end_len(s);
    if s.len() > 0 && is_ws(s.last()) {
        lemma_trim_end_prefix(s.drop_last());
        lemma_trim_end_len(s.drop_last());
        let t = s.drop_last();
        assert(t.take(trim_end(t).len() as int) =~= s.take(trim_end(t).len() as int));
    } else {
        assert(s.take(s.len() as int) =~= s);
    }
}

/// `trim` keeps a contiguous part of the text, which is itself trimmed.
pub proof fn lemma_trim_part(s: Seq<char>)
    ensures
        exists|a: int, b: int| 0 <= a <= b <= s.len() && trim(s) == s.subrange(a, b),
        trim(trim(s)) == trim(s),
{
    lemma_trim_start_suffix(s);
    let y = trim_start(s);
    lemma_trim_start_len(s);
    lemma_trim_end_prefix(y);
    lemma_trim_end_len(y);
    let z = trim_end(y);
    let a = s.len() - y.len();
    let b = a + z.len();
    assert(z =~= s.subrange(a, b));
    if z.len() > 0 {
        assert(z[0] == y[0]);
    }
    lemma_trim_id(z);
}

/// A part of a text has no line feed when the text has none.
pub proof fn lemma_part_no_char(s: Seq<char>, a: int, b: int, c: char)
    requires
        0 <= a <= b <= s.len(),
        forall|k: int| 0 <= k < s.len() ==> s[k] != c,
    ensures
        forall|k: int| 0 <= k < b - a ==> s.subrange(a, b)[k] != c,
{
    assert forall|k: int| 0 <= k < b - a implies s.subrange(a, b)[k] != c by {
        assert(s.subrange(a, b)[k] == s[a + k]);
    }
}

/// A part of a text does not contain a pattern the text does not contain.
pub proof fn lemma_part_no_match(s: Seq<char>, a: int, b: int, p: Seq<char>)
    requires
        0 <= a <= b <= s.len(),
        find(s, p) is None,
    ensures
        find(s.subrange(a, b), p) is None,
{
    lemma_find(s, p);
    let t = s.subrange(a, b);
    assert forall|j: int| 0 <= j && j + p.len() <= t.len() implies !matches_at(t, p, j) by {
        if matches_at(t, p, j) {
            assert(t.subrange(j, j + p.len()) =~= s.subrange(a + j, a + j + p.len()));
            assert(matches_at(s, p, a + j));
        }
    }
    lemma_find_none(t, p);
}

/// No line of a text holds a line feed.
pub proof fn lemma_lines_no_newline(s: Seq<char>)
    ensures
        forall|i: int, k: int|
            0 <= i < lines(s).len() && 0 <= k < lines(s)[i].len() ==> lines(s)[i][k] != '\n',
    decreases s.len(),
{
    if s.len() > 0 {
        lemma_first_index_of_bound(s, '\n');
        let i = first_index_of(s, '\n');
        if i < s.len() {
            lemma_lines_no_newline(s.skip(i as int + 1));
            let head = strip_cr(s.take(i as int));
            assert forall|k: int| 0 <= k < head.len() implies head[k] != '\n' by {
                assert(head[k] == s[k]);
            }
            let ls = lines(s);
            assert forall|j: int, k: int|
                0 <= j < ls.len() && 0 <= k < ls[j].len() implies ls[j][k] != '\n' by {
                if j > 0 {
                    assert(ls[j] == lines(s.skip(i as int + 1))[j - 1]);
                }
            }
        }
    }
}

/// Lines without line feeds, non-empty and not ending in a carriage
/// return, joined with line feeds, split back into themselves.
pub proof fn lemma_lines_of_join(ts: Seq<Seq<char>>)
    requires
        ts.len() > 0,
        forall|i: int| 0 <= i < ts.len() ==> (#[trigger] ts[i]).len() > 0,
        forall|i: int| 0 <= i < ts.len() ==> (#[trigger] ts[i]).last() != '\r',
        forall|i: int, k: int| 0 <= i < ts.len() && 0 <= k < ts[i].len() ==> ts[i][k] != '\n',
    ensures
        lines(join(ts, seq!['\n'])) == ts,
    decreases ts.len(),
{
    let last = ts.last();
    assert(last.len() > 0);
    assert forall|k: int| 0 <= k < last.len() implies last[k] != '\n' by {
        assert(last[k] == ts[ts.len() - 1][k]);
    }
    lemma_first_index_of(last, '\n', last.len() as int);
    if ts.len() == 1 {
        assert(lines(ts[0]) =~= ts);
    } else {
        let init = ts.drop_last();
        assert forall|i: int, k: int|
            0 <= i < init.len() && 0 <= k < init[i].len() implies init[i][k] != '\n' by {
            assert(init[i] == ts[i]);
        }
        assert forall|i: int| 0 <= i < init.len() implies (#[trigger] init[i]).len() > 0
            && init[i].last() != '\r' by {
            assert(init[i] == ts[i]);
        }
        lemma_lines_of_join(init);
        let j = join(init, seq!['\n']);
        lemma_join_last(init, seq!['\n']);
        assert(init.last() == ts[ts.len() - 2]);
        assert(init.last().last() != '\n') by {
            assert(init.last()[init.last().len() - 1] == ts[ts.len() - 2][init.last().len() - 1]);
        }
        lemma_lines_add_newline(j);
        assert(join(ts, seq!['\n']) =~= (j + seq!['\n']) + last);
        lemma_lines_append(j + seq!['\n'], last);
        assert(lines(last) =~= seq![last]);
        assert(lines(join(ts, seq!['\n'])) =~= ts);
    }
}

// ---------------------------------------------------------------------------
// Executable functions
// ---------------------------------------------------------------------------

/// Appends one character to a `String`; the contract restates what the
/// documentation of `String::push` says.
#[verifier::external_body]
pub(crate) fn push_char(s: &mut String, c: char)
    ensures
        final(s)@ == old(s)@.push(c),
{
    s.push(c);
}

/// The characters of a string slice, in order.
pub fn chars_of(s: &str) -> (v: Vec<char>)
    ensures
        v@ == s@,
{
    let mut v: Vec<char> = Vec::new();
    for c in iter: s.chars()
        invariant
            v@ == iter.seq().take(iter.index() as int),
    {
        v.push(c);
    }
    v
}

/// A `String` holding exactly the characters `v`.
pub fn string_of(v: &Vec<char>) -> (s: String)
    ensures
        s@ == v@,
{
    let mut s = String::new();
    let mut i: usize = 0;
    while i < v.len()
        invariant
            i <= v.len(),
            s@ == v@.take(i as int),
        decreases v.len() - i,
    {
        push_char(&mut s, v[i]);
        assert(v@.take(i + 1) =~= v@.take(i as int).push(v@[i as int]));
        i = i + 1;
    }
    assert(v@.take(v.len() as int) =~= v@);
    s
}

/// Whether `c` is Unicode whitespace.
pub fn is_ws_char(c: char) -> (b: bool)
    ensures
        b == is_ws(c),
{
    ('\u{9}' <= c && c <= '\u{d}') || c == ' ' || c == '\u{85}' || c == '\u{a0}' || c
        == '\u{1680}' || ('\u{2000}' <= c && c <= '\u{200a}') || c == '\u{2028}' || c
        == '\u{2029}' || c == '\u{202f}' || c == '\u{205f}' || c == '\u{3000}'
}

/// Characters `lo..hi` of `v`.
pub fn copy_range(v: &Vec<char>, lo: usize, hi: usize) -> (r: Vec<char>)
    requires
        lo <= hi <= v.len(),
    ensures
        r@ == v@.subrange(lo as int, hi as int),
{
    let mut r: Vec<char> = Vec::new();
    let mut i = lo;
    while i < hi
        invariant
            lo <= i <= hi <= v.len(),
            r@ == v@.subrange(lo as int, i as int),
        decreases hi - i,
    {
        r.push(v[i]);
        assert(v@.subrange(lo as int, i + 1) =~= v@.subrange(lo as int, i as int).push(
            v@[i as int],
        ));
        i = i + 1;
    }
    r
}

/// The bounds `(a, b)` of the trimmed part of `v[lo..hi]`.
pub fn trim_bounds(v: &Vec<char>, lo: usize, hi: usize) -> (r: (usize, usize))
    requires
        lo <= hi <= v.len(),
    ensures
        lo <= r.0 <= r.1 <= hi,
        v@.subrange(r.0 as int, r.1 as int) == trim(v@.subrange(lo as int, hi as int)),
{
    let ghost s = v@.subrange(lo as int, hi as int);
    let mut a = lo;
    while a < hi && is_ws_char(v[a])
        invariant
            lo <= a <= hi <= v.len(),
            s == v@.subrange(lo as int, hi as int),
            forall|k: int| lo <= k < a ==> is_ws(v@[k]),
        decreases hi - a,
    {
        a = a + 1;
    }
    proof {
        assert forall|k: int| 0 <= k < a - lo implies is_ws(s[k]) by {
            assert(s[k] == v@[lo + k]);
        }
        lemma_trim_start_skip(s, a - lo);
        assert(s.skip(a - lo) =~= v@.subrange(a as int, hi as int));
        if a < hi {
            assert(!is_ws(v@.subrange(a as int, hi as int)[0]));
        }
    }
    let ghost t = v@.subrange(a as int, hi as int);
    assert(trim_start(t) == t);
    let mut b = hi;
    while b > a && is_ws_char(v[b - 1])
        invariant
            lo <= a <= b <= hi <= v.len(),
            t == v@.subrange(a as int, hi as int),
            forall|k: int| b <= k < hi ==> is_ws(v@[k]),
        decreases b - a,
    {
        b = b - 1;
    }
    proof {
        assert forall|k: int| b - a <= k < t.len() implies is_ws(t[k]) by {
            assert(t[k] == v@[a + k]);
        }
        lemma_trim_end_take(t, b - a);
        assert(t.take(b - a) =~= v@.subrange(a as int, b as int));
        let u = v@.subrange(a as int, b as int);
        if u.len() > 0 {
            assert(u.last() == v@[b - 1]);
        }
        assert(trim_end(u) == u);
    }
    (a, b)
}

/// `trim` of a whole character vector.
pub fn trim_chars(v: &Vec<char>) -> (r: Vec<char>)
    ensures
        r@ == trim(v@),
{
    let (a, b) = trim_bounds(v, 0, v.len());
    assert(v@.subrange(0, v.len() as int) =~= v@);
    copy_range(v, a, b)
}

/// Whether `p` occurs in `s` at position `i`.
pub fn matches_at_exec(s: &Vec<char>, p: &Vec<char>, i: usize) -> (b: bool)
    ensures
        b == matches_at(s@, p@, i as int),
{
    if i > s.len() || p.len() > s.len() - i {
        return false;
    }
    let mut k: usize = 0;
    while k < p.len()
        invariant
            i + p.len() <= s.len(),
            k <= p.len(),
            forall|j: int| 0 <= j < k ==> s@[i + j] == p@[j],
        decreases p.len() - k,
    {
        if s[i + k] != p[k] {
            assert(s@.subrange(i as int, i + p.len())[k as int] != p@[k as int]);
            return false;
        }
        k = k + 1;
    }
    assert(s@.subrange(i as int, i + p.len()) =~= p@);
    true
}

/// `find`: position of the first occurrence of `p` in `s`.
pub fn find_exec(s: &Vec<char>, p: &Vec<char>) -> (r: Option<usize>)
    ensures
        r matches Some(i) ==> find(s@, p@) == Some(i as nat),
        r is None ==> find(s@, p@) is None,
{
    if p.len() > s.len() {
        proof {
            lemma_find_none(s@, p@);
        }
        return None;
    }
    let limit = s.len() - p.len();
    let mut i: usize = 0;
    loop
        invariant
            i <= limit,
            limit + p.len() == s.len(),
            forall|j: int| 0 <= j < i ==> !matches_at(s@, p@, j),
        ensures
            forall|j: int| 0 <= j <= limit ==> !matches_at(s@, p@, j),
        decreases limit - i,
    {
        if matches_at_exec(s, p, i) {
            proof {
                lemma_find_first(s@, p@, i as int);
            }
            return Some(i);
        }
        if i == limit {
            break;
        }
        i = i + 1;
    }
    proof {
        lemma_find_none(s@, p@);
    }
    None
}

/// `str::replace` with a non-empty pattern.
pub fn replace_all_exec(s: &Vec<char>, p: &Vec<char>, r: &Vec<char>) -> (out: Vec<char>)
    requires
        p.len() > 0,
    ensures
        out@ == replace_all(s@, p@, r@),
{
    let mut out: Vec<char> = Vec::new();
    let mut i: usize = 0;
    assert(s@.skip(0) =~= s@);
    while i < s.len()
        invariant
            i <= s.len(),
            p.len() > 0,
            replace_all(s@, p@, r@) == out@ + replace_all(s@.skip(i as int), p@, r@),
        decreases s.len() - i,
    {
        let ghost t = s@.skip(i as int);
        if matches_at_exec(s, p, i) {
            assert(t.take(p.len() as int) =~= s@.subrange(i as int, i + p.len()));
            assert(t.skip(p.len() as int) =~= s@.skip(i + p.len()));
            let mut k: usize = 0;
            let ghost out0 = out@;
            while k < r.len()
                invariant
                    k <= r.len(),
                    out@ == out0 + r@.take(k as int),
                decreases r.len() - k,
            {
                out.push(r[k]);
                assert(r@.take(k + 1) =~= r@.take(k as int).push(r@[k as int]));
                k = k + 1;
            }
            assert(r@.take(r.len() as int) =~= r@);
            assert(out@ + replace_all(s@.skip(i + p.len()), p@, r@) =~= out0 + (r@
                + replace_all(t.skip(p.len() as int), p@, r@)));
            i = i + p.len();
        } else {
            proof {
                if t.len() >= p.len() {
                    assert(t.take(p.len() as int) =~= s@.subrange(i as int, i + p.len()));
                }
            }
            assert(t.drop_first() =~= s@.skip(i + 1));
            let ghost out0 = out@;
            out.push(s[i]);
            assert(out@ + replace_all(s@.skip(i + 1), p@, r@) =~= out0 + (seq![t[0]]
                + replace_all(t.drop_first(), p@, r@)));
            i = i + 1;
        }
    }
    assert(s@.skip(s.len() as int) =~= Seq::<char>::empty());
    assert(out@ + Seq::<char>::empty() =~= out@);
    out
}


/// The views of a vector of character vectors.
pub open spec fn views(ls: Seq<Vec<char>>) -> Seq<Seq<char>> {
    ls.map_values(|l: Vec<char>| l@)
}

/// `str::lines`: the lines of `v`, without their line endings.
pub fn split_lines(v: &Vec<char>) -> (ls: Vec<Vec<char>>)
    ensures
        views(ls@) == lines(v@),
{
    let mut ls: Vec<Vec<char>> = Vec::new();
    let mut start: usize = 0;
    let mut j: usize = 0;
    assert(v@.skip(0) =~= v@);
    while j < v.len()
        invariant
            start <= j <= v.len(),
            forall|k: int| start <= k < j ==> v@[k] != '\n',
            lines(v@) == views(ls@) + lines(v@.skip(start as int)),
        decreases v.len() - j,
    {
        if v[j] == '\n' {
            let ghost t = v@.skip(start as int);
            proof {
                assert forall|k: int| 0 <= k < j - start implies t[k] != '\n' by {
                    assert(t[k] == v@[start + k]);
                }
                lemma_first_index_of(t, '\n', j - start);
                assert(t.skip(j - start + 1) =~= v@.skip(j + 1));
                assert(t.take(j - start) =~= v@.subrange(start as int, j as int));
            }
            let line = if j > start && v[j - 1] == '\r' {
                assert(v@.subrange(start as int, j - 1) =~= v@.subrange(
                    start as int,
                    j as int,
                ).drop_last());
                copy_range(v, start, j - 1)
            } else {
                copy_range(v, start, j)
            };
            let ghost ls0 = ls@;
            ls.push(line);
            assert(views(ls@) =~= views(ls0).push(line@));
            assert(views(ls@) + lines(v@.skip(j + 1)) =~= views(ls0) + (seq![line@] + lines(
                v@.skip(j + 1),
            )));
            start = j + 1;
        }
        j = j + 1;
    }
    if start < v.len() {
        let ghost t = v@.skip(start as int);
        proof {
            assert forall|k: int| 0 <= k < t.len() implies t[k] != '\n' by {
                assert(t[k] == v@[start + k]);
            }
            lemma_first_index_of(t, '\n', t.len() as int);
            assert(t =~= v@.subrange(start as int, v.len() as int));
        }
        let line = copy_range(v, start, v.len());
        let ghost ls0 = ls@;
        ls.push(line);
        assert(views(ls@) =~= views(ls0).push(line@));
        assert(views(ls@) =~= views(ls0) + lines(t));
    } else {
        assert(v@.skip(start as int) =~= Seq::<char>::empty());
        assert(views(ls@) + Seq::<Seq<char>>::empty() =~= views(ls@));
    }
    ls
}

/// The pieces joined with `sep` between each two of them.
pub fn join_exec(ls: &Vec<Vec<char>>, sep: &Vec<char>) -> (out: Vec<char>)
    ensures
        out@ == join(views(ls@), sep@),
{
    let mut out: Vec<char> = Vec::new();
    let mut i: usize = 0;
    while i < ls.len()
        invariant
            i <= ls.len(),
            out@ == join(views(ls@).take(i as int), sep@),
        decreases ls.len() - i,
    {
        let ghost before = out@;
        if i > 0 {
            append_chars(&mut out, sep);
        }
        append_chars(&mut out, &ls[i]);
        proof {
            let vs = views(ls@);
            assert(vs.take(i + 1).drop_last() =~= vs.take(i as int));
            assert(vs.take(i + 1).last() == ls@[i as int]@);
            if i == 0 {
                assert(vs.take(1) =~= seq![ls@[0]@]);
            }
        }
        i = i + 1;
    }
    assert(views(ls@).take(ls.len() as int) =~= views(ls@));
    out
}

/// Appends the characters `w` to `out`.
pub fn append_chars(out: &mut Vec<char>, w: &Vec<char>)
    ensures
        final(out)@ == old(out)@ + w@,
{
    let mut k: usize = 0;
    let ghost out0 = out@;
    while k < w.len()
        invariant
            k <= w.len(),
            out@ == out0 + w@.take(k as int),
        decreases w.len() - k,
    {
        out.push(w[k]);
        assert(w@.take(k + 1) =~= w@.take(k as int).push(w@[k as int]));
        k = k + 1;
    }
    assert(w@.take(w.len() as int) =~= w@);
}

/// Whether `s` parses as a `u32` (`s.parse::<u32>().is_ok()`).
pub fn is_u32_text_exec(s: &Vec<char>) -> (b: bool)
    ensures
        b == is_u32_text(s@),
{
    let start: usize = if s.len() > 0 && s[0] == '+' {
        1
    } else {
        0
    };
    let ghost d = u32_digits(s@);
    assert(d =~= s@.skip(start as int));
    if start >= s.len() {
        return false;
    }
    let mut value: u64 = 0;
    let mut i = start;
    while i < s.len()
        invariant
            start <= i <= s.len(),
            d == u32_digits(s@),
            d =~= s@.skip(start as int),
            forall|k: int| 0 <= k < i - start ==> is_digit(#[trigger] d[k]),
            value == digits_value(d.take(i - start)),
            value <= u32::MAX,
        decreases s.len() - i,
    {
        let c = s[i];
        if !('0' <= c && c <= '9') {
            assert(!is_digit(d[i - start]));
            assert(!is_u32_text(s@));
            return false;
        }
        let digit = (c as u32 - 48) as u64;
        proof {
            assert(d.take(i - start + 1).drop_last() =~= d.take(i - start));
            assert(d.take(i - start + 1).last() == c);
        }
        value = value * 10 + digit;
        if value > 4294967295 {
            proof {
                if all_digits(d) {
                    lemma_digits_value_prefix(d, i - start + 1);
                }
            }
            assert(!is_u32_text(s@));
            return false;
        }
        i = i + 1;
    }
    assert(d.take(s.len() - start) =~= d);
    true
}


/// The value of a digit prefix never exceeds that of the whole.
pub proof fn lemma_digits_value_prefix(d: Seq<char>, n: int)
    requires
        0 <= n <= d.len(),
        forall|k: int| 0 <= k < d.len() ==> is_digit(#[trigger] d[k]),
    ensures
        digits_value(d.take(n)) <= digits_value(d),
    decreases d.len() - n,
{
    if n < d.len() {
        let e = d.take(n + 1);
        assert(e.drop_last() =~= d.take(n));
        assert(is_digit(e.last()));
        lemma_digits_value_prefix(d, n + 1);
    } else {
        assert(d.take(n) =~= d);
    }
}


/// Whether two character vectors are equal.
pub fn chars_eq(a: &Vec<char>, b: &Vec<char>) -> (r: bool)
    ensures
        r == (a@ == b@),
{
    if a.len() != b.len() {
        return false;
    }
    let mut i: usize = 0;
    while i < a.len()
        invariant
            i <= a.len(),
            a.len() == b.len(),
            forall|k: int| 0 <= k < i ==> a@[k] == b@[k],
        decreases a.len() - i,
    {
        if a[i] != b[i] {
            return false;
        }
        i = i + 1;
    }
    assert(a@ =~= b@);
    true
}

/// Whether two strings have the same characters.
pub fn text_eq(a: &str, b: &str) -> (r: bool)
    ensures
        r == (a@ == b@),
{
    chars_eq(&chars_of(a), &chars_of(b))
}

/// Appends the decimal representation of `n`.
pub fn push_dec(out: &mut String, n: u64)
    ensures
        final(out)@ == old(out)@ + dec(n as nat),
    decreases n,
{
    if n >= 10 {
        push_dec(out, n / 10);
    }
    let d = (n % 10) as u8;
    let c = (d + 48) as char;
    push_char(out, c);
    proof {
        if n >= 10 {
            assert(dec(n as nat) == dec((n / 10) as nat).push(digit_char((n % 10) as nat)));
        }
    }
}

} // verus!
