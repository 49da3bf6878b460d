//! Subtitle data types and SRT timestamp text.
use vstd::prelude::*;

use crate::text::{
    all_digits, chars_of, copy_range, dec, digit_char, digits_value, is_digit, lemma_dec_digits,
    push_char, push_dec, string_of, zero_pad,
};
use vstd::arithmetic::div_mod::{lemma_fundamental_div_mod, lemma_mod_mod};

verus! {

broadcast use vstd::string::group_string_axioms;

/// One subtitle cue with its timestamps kept as text.
#[derive(Debug, Clone)]
pub struct SrtSentenceWithStrTime {
    pub text: String,
    pub start: String,
    pub end: String,
}

/// The mathematical content of a cue: its three texts.
pub struct SrtCue {
    pub text: Seq<char>,
    pub start: Seq<char>,
    pub end: Seq<char>,
}

impl View for SrtSentenceWithStrTime {
    type V = SrtCue;

    open spec fn view(&self) -> SrtCue {
        SrtCue { text: self.text@, start: self.start@, end: self.end@ }
    }
}

/// The views of a sequence of cues.
pub open spec fn cue_views(cs: Seq<SrtSentenceWithStrTime>) -> Seq<SrtCue> {
    cs.map_values(|c: SrtSentenceWithStrTime| c@)
}

/// A numbered subtitle block pairing a translated line with its origin line.
#[derive(Debug, Clone)]
pub struct SrtBlock {
    pub index: usize,
    pub timestamp: String,
    pub target_language_sentence: String,
    pub origin_language_sentence: String,
}

/// An origin text with its translation.
#[derive(Debug, Clone)]
pub struct TranslatedItem {
    pub origin_text: String,
    pub translated_text: String,
}

/// `HH:MM:SS,mmm` for a whole number of milliseconds: hours, minutes,
/// seconds and milliseconds, each zero-padded (hours to at least two
/// digits, milliseconds to three).
pub open spec fn timestamp_text(total_ms: nat) -> Seq<char> {
    zero_pad(dec(total_ms / 3_600_000), 2) + seq![':'] + zero_pad(
        dec((total_ms % 3_600_000) / 60_000),
        2,
    ) + seq![':'] + zero_pad(dec((total_ms % 60_000) / 1_000), 2) + seq![','] + zero_pad(
        dec(total_ms % 1_000),
        3,
    )
}

/// Appends `dec(n)` zero-padded to `width` characters.
fn push_padded(out: &mut String, n: u64, width: usize)
    requires
        width <= 3,
    ensures
        final(out)@ == old(out)@ + zero_pad(dec(n as nat), width as nat),
{
    let mut digits = String::new();
    push_dec(&mut digits, n);
    let len = digits.as_str().unicode_len();
    let ghost out0 = out@;
    if len < width {
        let mut k: usize = 0;
        while k < width - len
            invariant
                len < width <= 3,
                k <= width - len,
                out@ == out0 + Seq::new(k as nat, |i: int| '0'),
            decreases width - len - k,
        {
            push_char(out, '0');
            assert(Seq::new((k + 1) as nat, |i: int| '0') =~= Seq::new(k as nat, |i: int| '0').push(
                '0',
            ));
            k = k + 1;
        }
    }
    out.append(digits.as_str());
    assert(out@ =~= out0 + zero_pad(dec(n as nat), width as nat));
}

/// The SRT timestamp `HH:MM:SS,mmm` of a time given in whole milliseconds.
pub fn format_millis(total_ms: u64) -> (s: String)
    ensures
        s@ == timestamp_text(total_ms as nat),
{
    let h = total_ms / 3_600_000;
    let m = (total_ms % 3_600_000) / 60_000;
    let sec = (total_ms % 60_000) / 1_000;
    let ms = total_ms % 1_000;
    let mut out = String::new();
    push_padded(&mut out, h, 2);
    push_char(&mut out, ':');
    push_padded(&mut out, m, 2);
    push_char(&mut out, ':');
    push_padded(&mut out, sec, 2);
    push_char(&mut out, ',');
    push_padded(&mut out, ms, 3);
    out
}

/// `"{start} --> {end}"`, the time range line of an SRT cue.
pub open spec fn time_range_text(start: Seq<char>, end: Seq<char>) -> Seq<char> {
    start + seq![' ', '-', '-', '>', ' '] + end
}

/// The time range line `"{start} --> {end}"` of two formatted timestamps.
pub fn format_range(start: &str, end: &str) -> (s: String)
    ensures
        s@ == time_range_text(start@, end@),
{
    let mut out = String::from_str(start);
    out.append(" --> ");
    out.append(end);
    proof {
        reveal_strlit(" --> ");
    }
    assert(out@ =~= time_range_text(start@, end@));
    out
}

/// A separator of the fields of an SRT timestamp.
pub open spec fn is_ts_sep(c: char) -> bool {
    c == ':' || c == ','
}

/// Index of the first separator, or the length when there is none.
pub open spec fn first_ts_sep(s: Seq<char>) -> nat
    decreases s.len(),
{
    if s.len() == 0 {
        0
    } else if is_ts_sep(s[0]) {
        0
    } else {
        1 + first_ts_sep(s.drop_first())
    }
}

/// `s.split(&[':', ','])`: the pieces between separators.
pub open spec fn split_ts(s: Seq<char>) -> Seq<Seq<char>>
    decreases s.len(),
{
    let i = first_ts_sep(s);
    if i < s.len() {
        seq![s.take(i as int)] + split_ts(s.skip(i as int + 1))
    } else {
        seq![s]
    }
}

proof fn lemma_first_ts_sep(s: Seq<char>, m: int)
    requires
        0 <= m <= s.len(),
        forall|k: int| 0 <= k < m ==> !is_ts_sep(s[k]),
        m == s.len() || is_ts_sep(s[m]),
    ensures
        first_ts_sep(s) == m,
    decreases s.len(),
{
    if s.len() > 0 && !is_ts_sep(s[0]) {
        lemma_first_ts_sep(s.drop_first(), m - 1);
    }
}

/// The fields of a timestamp `HH:MM:SS,mmm` when it has exactly four
/// (what `parse_timestamp` reads as numbers).
pub fn timestamp_fields(ts: &str) -> (r: Option<Vec<String>>)
    ensures
        r is Some <==> split_ts(ts@).len() == 4,
        r matches Some(v) ==> v@.map_values(|f: String| f@) == split_ts(ts@),
{
    let s = chars_of(ts);
    let mut fields: Vec<String> = Vec::new();
    let mut start: usize = 0;
    let mut j: usize = 0;
    assert(s@.skip(0) =~= s@);
    while j < s.len()
        invariant
            start <= j <= s.len(),
            s@ == ts@,
            forall|k: int| start <= k < j ==> !is_ts_sep(s@[k]),
            split_ts(s@) == fields@.map_values(|f: String| f@) + split_ts(s@.skip(start as int)),
        decreases s.len() - j,
    {
        if s[j] == ':' || s[j] == ',' {
            let ghost t = s@.skip(start as int);
            proof {
                assert forall|k: int| 0 <= k < j - start implies !is_ts_sep(t[k]) by {
                    assert(t[k] == s@[start + k]);
                }
                lemma_first_ts_sep(t, j - start);
                assert(t.skip(j - start + 1) =~= s@.skip(j + 1));
                assert(t.take(j - start) =~= s@.subrange(start as int, j as int));
            }
            let piece = string_of(&copy_range(&s, start, j));
            let ghost before = fields@.map_values(|f: String| f@);
            fields.push(piece);
            assert(fields@.map_values(|f: String| f@) =~= before.push(piece@));
            assert(fields@.map_values(|f: String| f@) + split_ts(s@.skip(j + 1)) =~= before + (
            seq![piece@] + split_ts(s@.skip(j + 1))));
            start = j + 1;
        }
        j = j + 1;
    }
    let ghost t = s@.skip(start as int);
    proof {
        assert forall|k: int| 0 <= k < t.len() implies !is_ts_sep(t[k]) by {
            assert(t[k] == s@[start + k]);
        }
        lemma_first_ts_sep(t, t.len() as int);
        assert(t =~= s@.subrange(start as int, s.len() as int));
    }
    let last = string_of(&copy_range(&s, start, s.len()));
    let ghost before = fields@.map_values(|f: String| f@);
    fields.push(last);
    assert(fields@.map_values(|f: String| f@) =~= before.push(last@));
    assert(fields@.map_values(|f: String| f@) =~= split_ts(ts@));
    if fields.len() == 4 {
        Some(fields)
    } else {
        None
    }
}

proof fn lemma_split_ts_cons(a: Seq<char>, c: char, b: Seq<char>)
    requires
        forall|k: int| 0 <= k < a.len() ==> !is_ts_sep(a[k]),
        is_ts_sep(c),
    ensures
        split_ts(a + seq![c] + b) == seq![a] + split_ts(b),
{
    let x = a + seq![c] + b;
    assert forall|k: int| 0 <= k < a.len() implies !is_ts_sep(x[k]) by {
        assert(x[k] == a[k]);
    }
    lemma_first_ts_sep(x, a.len() as int);
    assert(x.take(a.len() as int) =~= a);
    assert(x.skip(a.len() as int + 1) =~= b);
}

proof fn lemma_split_ts_single(a: Seq<char>)
    requires
        forall|k: int| 0 <= k < a.len() ==> !is_ts_sep(a[k]),
    ensures
        split_ts(a) == seq![a],
{
    lemma_first_ts_sep(a, a.len() as int);
}

proof fn lemma_digits_value_dec(n: nat)
    ensures
        digits_value(dec(n)) == n,
    decreases n,
{
    if n >= 10 {
        lemma_digits_value_dec(n / 10);
        let d = dec(n / 10).push(digit_char(n % 10));
        assert(d.drop_last() =~= dec(n / 10));
        assert(d.last() == digit_char(n % 10));
        assert((digit_char(n % 10) as int) == n % 10 + 48);
        assert(dec(n) == d);
        assert(digits_value(d) == 10 * digits_value(dec(n / 10)) + (n % 10));
        lemma_fundamental_div_mod(n as int, 10);
    } else {
        assert(dec(n).drop_last() =~= Seq::<char>::empty());
        assert(digits_value(Seq::<char>::empty()) == 0);
        assert((digit_char(n) as int) == n + 48);
        assert(dec(n).last() == digit_char(n));
    }
}

proof fn lemma_digits_value_zeros(k: nat)
    ensures
        digits_value(Seq::new(k, |i: int| '0')) == 0,
    decreases k,
{
    if k > 0 {
        assert(Seq::new(k, |i: int| '0').drop_last() =~= Seq::new((k - 1) as nat, |i: int| '0'));
        lemma_digits_value_zeros((k - 1) as nat);
    }
}

proof fn lemma_digits_value_leading_zeros(k: nat, s: Seq<char>)
    ensures
        digits_value(Seq::new(k, |i: int| '0') + s) == digits_value(s),
    decreases s.len(),
{
    let z = Seq::new(k, |i: int| '0');
    if s.len() == 0 {
        assert(z + s =~= z);
        lemma_digits_value_zeros(k);
    } else {
        assert((z + s).drop_last() =~= z + s.drop_last());
        assert((z + s).last() == s.last());
        lemma_digits_value_leading_zeros(k, s.drop_last());
    }
}

proof fn lemma_padded_field(n: nat, w: nat)
    ensures
        digits_value(zero_pad(dec(n), w)) == n,
        all_digits(zero_pad(dec(n), w)),
        forall|k: int| 0 <= k < zero_pad(dec(n), w).len() ==> !is_ts_sep(
            #[trigger] zero_pad(dec(n), w)[k],
        ),
{
    lemma_digits_value_dec(n);
    lemma_dec_digits(n);
    let d = dec(n);
    let p = zero_pad(d, w);
    if d.len() < w {
        let z = Seq::new((w - d.len()) as nat, |i: int| '0');
        lemma_digits_value_leading_zeros((w - d.len()) as nat, d);
        assert forall|k: int| 0 <= k < p.len() implies is_digit(#[trigger] p[k]) by {
            if k >= z.len() {
                assert(p[k] == d[k - z.len()]);
            }
        }
    }
    assert forall|k: int| 0 <= k < p.len() implies !is_ts_sep(#[trigger] p[k]) by {
        assert(is_digit(p[k]));
    }
}

/// **Law.** A formatted timestamp reads back as the time it was formatted
/// from: it splits into exactly four digit fields, whose values are its
/// hours, minutes, seconds and milliseconds, and these add back up to the
/// milliseconds formatted.
pub proof fn timestamp_fields_of_format(t: nat)
    ensures
        split_ts(timestamp_text(t)).len() == 4,
        digits_value(split_ts(timestamp_text(t))[0]) == t / 3_600_000,
        digits_value(split_ts(timestamp_text(t))[1]) == (t % 3_600_000) / 60_000,
        digits_value(split_ts(timestamp_text(t))[2]) == (t % 60_000) / 1_000,
        digits_value(split_ts(timestamp_text(t))[3]) == t % 1_000,
        forall|i: int| 0 <= i < 4 ==> all_digits(#[trigger] split_ts(timestamp_text(t))[i]),
        (t / 3_600_000) * 3_600_000 + ((t % 3_600_000) / 60_000) * 60_000 + ((t % 60_000)
            / 1_000) * 1_000 + t % 1_000 == t,
{
    let h = zero_pad(dec(t / 3_600_000), 2);
    let m = zero_pad(dec((t % 3_600_000) / 60_000), 2);
    let s = zero_pad(dec((t % 60_000) / 1_000), 2);
    let ms = zero_pad(dec(t % 1_000), 3);
    lemma_padded_field(t / 3_600_000, 2);
    lemma_padded_field((t % 3_600_000) / 60_000, 2);
    lemma_padded_field((t % 60_000) / 1_000, 2);
    lemma_padded_field(t % 1_000, 3);
    let tail2 = s + seq![','] + ms;
    let tail1 = m + seq![':'] + tail2;
    assert(timestamp_text(t) =~= h + seq![':'] + tail1);
    lemma_split_ts_cons(h, ':', tail1);
    lemma_split_ts_cons(m, ':', tail2);
    lemma_split_ts_cons(s, ',', ms);
    lemma_split_ts_single(ms);
    assert(split_ts(timestamp_text(t)) =~= seq![h, m, s, ms]);
    let ti = t as int;
    lemma_fundamental_div_mod(ti, 3_600_000);
    lemma_fundamental_div_mod(ti % 3_600_000, 60_000);
    lemma_fundamental_div_mod(ti % 60_000, 1_000);
    lemma_mod_mod(ti, 60_000, 60);
    lemma_mod_mod(ti, 1_000, 60);
}

} // verus!
