//! Reading what the media probes print, and the command lines that
//! convert audio and replace a video's sound track.
use vstd::prelude::*;

use crate::provider::{push_text, strs};

use crate::text::{
    all_digits, chars_of, copy_range, dec, digit_char, find, find_exec, is_digit, lemma_dec_digits,
    lemma_find, matches_at, trim, trim_chars, trim_end, trim_start, u32_digits,
};

verus! {

broadcast use vstd::string::group_string_axioms;

/// How reading a text as a `u32` fails, as `str::parse::<u32>` reports it.
#[derive(Debug, Clone, Copy, PartialEq, Eq)]
pub enum IntErrorKind {
    /// The text is empty.
    Empty,
    /// A character is not a digit (a lone `+` counts as one).
    InvalidDigit,
    /// The number is too large for a `u32`.
    PosOverflow,
}

/// Why a resolution could not be read.
#[derive(Debug, Clone, Copy, PartialEq, Eq)]
pub enum ResolutionError {
    /// The text is not two parts separated by one `x`.
    NotTwoParts,
    /// A part is not an unsigned number that fits in a `u32`.
    Number(IntErrorKind),
}

/// `s.split('x')` when it yields exactly two parts.
pub open spec fn split_x(s: Seq<char>) -> Option<(Seq<char>, Seq<char>)> {
    match find(s, seq!['x']) {
        Some(i) => {
            let rest = s.skip(i as int + 1);
            if find(rest, seq!['x']) is Some {
                None
            } else {
                Some((s.take(i as int), rest))
            }
        },
        None => None,
    }
}

/// Reads the digits `d` from index `i` on, with `v` the value of those
/// before: the first character that is not a digit, or the first digit that
/// takes the value past `u32::MAX`, decides the error.
pub open spec fn u32_scan(d: Seq<char>, i: int, v: nat) -> Result<nat, IntErrorKind>
    decreases d.len() - i,
{
    if i < 0 || i >= d.len() {
        Ok(v)
    } else if !is_digit(d[i]) {
        Err(IntErrorKind::InvalidDigit)
    } else if 10 * v + (d[i] as int - 48) > u32::MAX {
        Err(IntErrorKind::PosOverflow)
    } else {
        u32_scan(d, i + 1, (10 * v + (d[i] as int - 48)) as nat)
    }
}

/// `s.parse::<u32>()`: an empty text is refused, one leading `+` is
/// skipped (a lone `+` is an invalid digit), then the digits are read from
/// the left.
pub open spec fn u32_parse(s: Seq<char>) -> Result<nat, IntErrorKind> {
    if s.len() == 0 {
        Err(IntErrorKind::Empty)
    } else if u32_digits(s).len() == 0 {
        Err(IntErrorKind::InvalidDigit)
    } else {
        u32_scan(u32_digits(s), 0, 0)
    }
}

proof fn lemma_scan_push(d: Seq<char>, i: int, v: nat, c: char)
    requires
        0 <= i <= d.len(),
    ensures
        u32_scan(d.push(c), i, v) == match u32_scan(d, i, v) {
            Err(e) => Err(e),
            Ok(w) => if !is_digit(c) {
                Err(IntErrorKind::InvalidDigit)
            } else if 10 * w + (c as int - 48) > u32::MAX {
                Err(IntErrorKind::PosOverflow)
            } else {
                Ok((10 * w + (c as int - 48)) as nat)
            },
        },
    decreases d.len() - i,
{
    let e = d.push(c);
    if i < d.len() {
        assert(e[i] == d[i]);
        if is_digit(d[i]) && 10 * v + (d[i] as int - 48) <= u32::MAX {
            lemma_scan_push(d, i + 1, (10 * v + (d[i] as int - 48)) as nat, c);
        }
    } else {
        assert(e[i] == c);
        if is_digit(c) && 10 * v + (c as int - 48) <= u32::MAX {
            assert(u32_scan(e, i + 1, (10 * v + (c as int - 48)) as nat) == Ok::<nat, IntErrorKind>(
                (10 * v + (c as int - 48)) as nat,
            ));
        }
    }
}

proof fn lemma_scan_dec(n: nat)
    ensures
        u32_scan(dec(n), 0, 0) == if n <= u32::MAX {
            Ok::<nat, IntErrorKind>(n)
        } else {
            Err(IntErrorKind::PosOverflow)
        },
    decreases n,
{
    let m = n % 10;
    assert((digit_char(m) as int) == m + 48);
    assert(is_digit(digit_char(m)));
    if n < 10 {
        let d = dec(n);
        assert(d[0] == digit_char(n));
        assert(u32_scan(d, 1, n) == Ok::<nat, IntErrorKind>(n));
    } else {
        lemma_scan_dec(n / 10);
        lemma_scan_push(dec(n / 10), 0, 0, digit_char(m));
        assert(n == 10 * (n / 10) + m);
    }
}

/// **Law.** Reading back a number written in decimal gives that number when
/// it fits in a `u32`, with or without a leading `+`, and fails as too large
/// when it does not.
pub proof fn decimal_numbers_read_back(n: nat)
    ensures
        n <= u32::MAX ==> u32_parse(dec(n)) == Ok::<nat, IntErrorKind>(n),
        n <= u32::MAX ==> u32_parse(seq!['+'] + dec(n)) == Ok::<nat, IntErrorKind>(n),
        n > u32::MAX ==> u32_parse(dec(n)) == Err::<nat, IntErrorKind>(IntErrorKind::PosOverflow),
{
    lemma_dec_digits(n);
    lemma_scan_dec(n);
    assert(is_digit(dec(n)[0]));
    assert(u32_digits(dec(n)) == dec(n));
    let p = seq!['+'] + dec(n);
    assert(p[0] == '+');
    assert(p.drop_first() =~= dec(n));
}

/// Reads a text as `str::parse::<u32>` does.
pub fn parse_u32_text(s: &Vec<char>) -> (r: Result<u32, IntErrorKind>)
    ensures
        match (r, u32_parse(s@)) {
            (Ok(n), Ok(v)) => n as nat == v,
            (Err(e), Err(se)) => e == se,
            _ => false,
        },
{
    if s.len() == 0 {
        return Err(IntErrorKind::Empty);
    }
    let start: usize = if s[0] == '+' {
        1
    } else {
        0
    };
    let ghost d = u32_digits(s@);
    assert(d =~= s@.skip(start as int));
    if start >= s.len() {
        return Err(IntErrorKind::InvalidDigit);
    }
    assert(u32_parse(s@) == u32_scan(d, 0, 0));
    let mut value: u64 = 0;
    let mut i = start;
    while i < s.len()
        invariant
            u32_parse(s@) == u32_scan(d, 0, 0),
            start <= i <= s.len(),
            start <= 1,
            d =~= s@.skip(start as int),
            d.len() > 0,
            value <= u32::MAX,
            u32_scan(d, 0, 0) == u32_scan(d, i - start, value as nat),
        decreases s.len() - i,
    {
        let c = s[i];
        assert(d[i - start] == c);
        if !('0' <= c && c <= '9') {
            assert(u32_scan(d, i - start, value as nat) == Err::<nat, IntErrorKind>(
                IntErrorKind::InvalidDigit,
            ));
            return Err(IntErrorKind::InvalidDigit);
        }
        let digit = (c as u32 - 48) as u64;
        let next = value * 10 + digit;
        if next > 4294967295 {
            assert(u32_scan(d, i - start, value as nat) == Err::<nat, IntErrorKind>(
                IntErrorKind::PosOverflow,
            ));
            return Err(IntErrorKind::PosOverflow);
        }
        value = next;
        i = i + 1;
    }
    Ok(value as u32)
}

/// What `get_resolution` reads from ffprobe's `WIDTHxHEIGHT` output: the
/// trimmed text split at its one `x`, the width then the height parsed as
/// `u32`.
pub open spec fn resolution_of(out: Seq<char>) -> Result<(nat, nat), ResolutionError> {
    match split_x(trim(out)) {
        Some((w, h)) => match u32_parse(w) {
            Err(k) => Err(ResolutionError::Number(k)),
            Ok(a) => match u32_parse(h) {
                Err(k) => Err(ResolutionError::Number(k)),
                Ok(b) => Ok((a, b)),
            },
        },
        None => Err(ResolutionError::NotTwoParts),
    }
}

proof fn lemma_no_x_in_digits(d: Seq<char>)
    requires
        all_digits(d),
    ensures
        find(d, seq!['x']) is None,
{
    lemma_find(d, seq!['x']);
    if let Some(j) = find(d, seq!['x']) {
        assert(seq!['x'][0] == 'x');
        assert(d.subrange(j as int, j as int + 1)[0] == d[j as int]);
        assert(is_digit(d[j as int]));
    }
}

/// **Law.** A resolution printed as `{width}x{height}` followed by a line
/// break, both numbers fitting in a `u32`, is read back as exactly those two
/// numbers.
pub proof fn printed_resolution_read_back(w: nat, h: nat)
    requires
        w <= u32::MAX,
        h <= u32::MAX,
    ensures
        resolution_of(dec(w) + seq!['x'] + dec(h) + seq!['\n']) == Ok::<(nat, nat), ResolutionError>(
            (w, h),
        ),
{
    lemma_dec_digits(w);
    lemma_dec_digits(h);
    decimal_numbers_read_back(w);
    decimal_numbers_read_back(h);
    let a = dec(w);
    let b = dec(h);
    let t = a + seq!['x'] + b;
    let s = t + seq!['\n'];
    let l = a.len() as int;
    // Trimming removes only the line break.
    assert(is_digit(a[0]));
    assert(s[0] == a[0]);
    assert(trim_start(s) == s);
    assert(s.drop_last() =~= t);
    assert(trim_end(s) == trim_end(t));
    assert(is_digit(b[b.len() - 1]));
    assert(t.last() == b[b.len() - 1]);
    assert(trim_end(t) == t);
    assert(trim(s) == t);
    // The one `x` is the one written.
    let x = seq!['x'];
    assert(t.subrange(l, l + 1) =~= x);
    assert(matches_at(t, x, l));
    lemma_find(t, x);
    if let Some(j) = find(t, x) {
        if j < l {
            assert(matches_at(t, x, j as int));
            assert(x[0] == 'x');
            assert(t.subrange(j as int, j as int + 1)[0] == t[j as int]);
            assert(t[j as int] == a[j as int]);
            assert(is_digit(a[j as int]));
        }
    }
    assert(find(t, x) == Some(l as nat));
    assert(t.skip(l + 1) =~= b);
    assert(t.take(l) =~= a);
    lemma_no_x_in_digits(b);
}

/// Reads `WIDTHxHEIGHT` as printed by ffprobe.
pub fn parse_resolution(out: &str) -> (r: Result<(u32, u32), ResolutionError>)
    ensures
        match (r, resolution_of(out@)) {
            (Ok((w, h)), Ok((sw, sh))) => w as nat == sw && h as nat == sh,
            (Err(e), Err(se)) => e == se,
            _ => false,
        },
{
    let s = trim_chars(&chars_of(out));
    let x: Vec<char> = vec!['x'];
    assert(x@ =~= seq!['x']);
    match find_exec(&s, &x) {
        Some(i) => {
            proof {
                lemma_find(s@, x@);
            }
            let rest = copy_range(&s, i + 1, s.len());
            assert(rest@ =~= s@.skip(i + 1));
            if find_exec(&rest, &x).is_some() {
                return Err(ResolutionError::NotTwoParts);
            }
            let w = copy_range(&s, 0, i);
            assert(w@ =~= s@.take(i as int));
            match parse_u32_text(&w) {
                Err(k) => Err(ResolutionError::Number(k)),
                Ok(a) => match parse_u32_text(&rest) {
                    Err(k) => Err(ResolutionError::Number(k)),
                    Ok(b) => Ok((a, b)),
                },
            }
        },
        None => Err(ResolutionError::NotTwoParts),
    }
}

/// The message `str::parse::<u32>` gives for each way of failing.
pub open spec fn int_error_message(k: IntErrorKind) -> Seq<char> {
    match k {
        IntErrorKind::Empty => "cannot parse integer from empty string"@,
        IntErrorKind::InvalidDigit => "invalid digit found in string"@,
        IntErrorKind::PosOverflow => "number too large to fit in target type"@,
    }
}

impl IntErrorKind {
    /// The message of this failure.
    pub fn message(&self) -> (r: &'static str)
        ensures
            r@ == int_error_message(*self),
    {
        match self {
            IntErrorKind::Empty => "cannot parse integer from empty string",
            IntErrorKind::InvalidDigit => "invalid digit found in string",
            IntErrorKind::PosOverflow => "number too large to fit in target type",
        }
    }
}

/// The file that `process_audio` writes next to its input:
/// `{stem}_mono_16K.mp3`.
pub fn mono_audio_file_name(stem: &str) -> (r: String)
    ensures
        r@ == stem@ + "_mono_16K.mp3"@,
{
    let mut r = String::from_str(stem);
    r.append("_mono_16K.mp3");
    r
}

/// The ffmpeg arguments that convert `input` to mono 16 kHz MP3 at
/// 192 kbit/s in `output`, overwriting it.
pub fn process_audio_args(input: &str, output: &str) -> (r: Vec<String>)
    ensures
        strs(r@) == seq![
            "-y"@,
            "-i"@,
            input@,
            "-ac"@,
            "1"@,
            "-ar"@,
            "16000"@,
            "-b:a"@,
            "192k"@,
            output@,
        ],
{
    let mut r: Vec<String> = Vec::new();
    push_text(&mut r, "-y");
    push_text(&mut r, "-i");
    push_text(&mut r, input);
    push_text(&mut r, "-ac");
    push_text(&mut r, "1");
    push_text(&mut r, "-ar");
    push_text(&mut r, "16000");
    push_text(&mut r, "-b:a");
    push_text(&mut r, "192k");
    push_text(&mut r, output);
    assert(strs(r@) =~= seq![
        "-y"@,
        "-i"@,
        input@,
        "-ac"@,
        "1"@,
        "-ar"@,
        "16000"@,
        "-b:a"@,
        "192k"@,
        output@,
    ]);
    r
}

/// The ffmpeg arguments that write `output` with the video stream of
/// `video`, copied, and the sound of `audio`, overwriting it.
pub fn replace_audio_args(video: &str, audio: &str, output: &str) -> (r: Vec<String>)
    ensures
        strs(r@) == seq![
            "-y"@,
            "-i"@,
            video@,
            "-i"@,
            audio@,
            "-c:v"@,
            "copy"@,
            "-map"@,
            "0:v:0"@,
            "-map"@,
            "1:a:0"@,
            output@,
        ],
{
    let mut r: Vec<String> = Vec::new();
    push_text(&mut r, "-y");
    push_text(&mut r, "-i");
    push_text(&mut r, video);
    push_text(&mut r, "-i");
    push_text(&mut r, audio);
    push_text(&mut r, "-c:v");
    push_text(&mut r, "copy");
    push_text(&mut r, "-map");
    push_text(&mut r, "0:v:0");
    push_text(&mut r, "-map");
    push_text(&mut r, "1:a:0");
    push_text(&mut r, output);
    assert(strs(r@) =~= seq![
        "-y"@,
        "-i"@,
        video@,
        "-i"@,
        audio@,
        "-c:v"@,
        "copy"@,
        "-map"@,
        "0:v:0"@,
        "-map"@,
        "1:a:0"@,
        output@,
    ]);
    r
}

} // verus!
