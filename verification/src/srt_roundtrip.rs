//! Reading back a written SRT file gives the cues that were written.
use vstd::prelude::*;

use crate::srt::{
    arrow, cue_block, cues_of_lines, lemma_text_block_len_bound, split_arrow, srt_cues, srt_text,
    text_block_len, trim_all,
};
use crate::subtitle::{time_range_text, SrtCue};
use crate::text::{
    all_digits, contains, dec, find, is_digit, is_u32_text, is_ws, join, lemma_dec_digits,
    lemma_find, lemma_find_first, lemma_find_none, lemma_lines_add_newline, lemma_lines_append,
    lemma_lines_no_newline, lemma_lines_of_join, lemma_lines_single, lemma_join_last,
    lemma_part_no_char, lemma_part_no_match, lemma_trim_id, lemma_trim_part, lemma_trimmed, lines,
    matches_at, trim,
    trim_end, trim_start, u32_digits,
};

verus! {

/// No line feed in `s`.
pub open spec fn no_newline(s: Seq<char>) -> bool {
    forall|k: int| 0 <= k < s.len() ==> s[k] != '\n'
}

/// A cue text that survives writing and reading: one or more non-empty,
/// trimmed lines separated by single line feeds.
pub open spec fn text_well_formed(t: Seq<char>) -> bool {
    &&& lines(t).len() > 0
    &&& forall|i: int|
        0 <= i < lines(t).len() ==> (#[trigger] lines(t)[i]).len() > 0 && trim(lines(t)[i])
            == lines(t)[i]
    &&& join(lines(t), seq!['\n']) == t
}

/// A cue that `render_srt` writes in a form that `parse_srt` reads back
/// unchanged: trimmed single-line timestamps without `-->`, and a
/// well-formed text.
pub open spec fn cue_well_formed(c: SrtCue) -> bool {
    &&& trim(c.start) == c.start
    &&& trim(c.end) == c.end
    &&& no_newline(c.start)
    &&& no_newline(c.end)
    &&& !contains(c.start, arrow())
    &&& !contains(c.end, arrow())
    &&& text_well_formed(c.text)
}

/// The lines of one written cue.
pub open spec fn cue_lines(n: nat, c: SrtCue) -> Seq<Seq<char>> {
    seq![dec(n), time_range_text(c.start, c.end)] + lines(c.text) + seq![Seq::<char>::empty()]
}

/// The lines of the written cues `cs`, numbered from `off + 1`.
pub open spec fn blocks_lines(cs: Seq<SrtCue>, off: nat) -> Seq<Seq<char>>
    decreases cs.len(),
{
    if cs.len() == 0 {
        seq![]
    } else {
        blocks_lines(cs.drop_last(), off) + cue_lines(off + cs.len(), cs.last())
    }
}

/// **Law.** Reading back what `render_srt` writes gives the cues that were
/// written, for every list of well-formed cues:
/// `srt_cues(srt_text(cs)) == cs`.
pub proof fn parse_render_roundtrip(cs: Seq<SrtCue>)
    requires
        forall|i: int| 0 <= i < cs.len() ==> cue_well_formed(#[trigger] cs[i]),
    ensures
        srt_cues(srt_text(cs)) == cs,
{
    lemma_lines_of_srt_text(cs);
    lemma_cues_of_blocks(cs, 0);
}

/// **Law.** Writing out what was read and reading it again gives the same
/// cues: for every text, `srt_cues(srt_text(srt_cues(content))) ==
/// srt_cues(content)`.
pub proof fn parse_render_parse(content: Seq<char>)
    ensures
        srt_cues(srt_text(srt_cues(content))) == srt_cues(content),
{
    lemma_lines_no_newline(content);
    lemma_cues_well_formed(lines(content));
    parse_render_roundtrip(srt_cues(content));
}

/// Lines without line feeds.
pub open spec fn all_no_newline(ls: Seq<Seq<char>>) -> bool {
    forall|i: int, k: int| 0 <= i < ls.len() && 0 <= k < ls[i].len() ==> ls[i][k] != '\n'
}

proof fn lemma_trim_no_newline(x: Seq<char>)
    requires
        no_newline(x),
    ensures
        no_newline(trim(x)),
        trim(trim(x)) == trim(x),
{
    lemma_trim_part(x);
    let (a, b) = choose|a: int, b: int| 0 <= a <= b <= x.len() && trim(x) == x.subrange(a, b);
    lemma_part_no_char(x, a, b, '\n');
}

proof fn lemma_trim_no_arrow(x: Seq<char>)
    requires
        find(x, arrow()) is None,
    ensures
        !contains(trim(x), arrow()),
{
    lemma_trim_part(x);
    let (a, b) = choose|a: int, b: int| 0 <= a <= b <= x.len() && trim(x) == x.subrange(a, b);
    lemma_part_no_match(x, a, b, arrow());
}

/// The cues read from lines without line feeds are well formed.
proof fn lemma_cues_well_formed(ls: Seq<Seq<char>>)
    requires
        all_no_newline(ls),
    ensures
        forall|i: int|
            0 <= i < cues_of_lines(ls).len() ==> cue_well_formed(#[trigger] cues_of_lines(ls)[i]),
    decreases ls.len(),
{
    if ls.len() > 0 {
        let rest = ls.drop_first();
        assert(all_no_newline(rest)) by {
            assert forall|i: int, k: int| 0 <= i < rest.len() && 0 <= k < rest[i].len() implies rest[i][k]
                != '\n' by {
                assert(rest[i] == ls[i + 1]);
            }
        }
        lemma_cues_well_formed(rest);
        let l0 = ls[0];
        assert(no_newline(l0)) by {
            assert forall|k: int| 0 <= k < l0.len() implies l0[k] != '\n' by {
                assert(ls[0][k] != '\n');
            }
        }
        lemma_trim_no_newline(l0);
        let line = trim(l0);
        if !(line.len() == 0 || is_u32_text(line)) {
            match split_arrow(line) {
                Some((a, b)) => {
                    let k = text_block_len(rest);
                    lemma_text_block_len_bound(rest);
                    let tail_lines = rest.skip(k as int);
                    assert(all_no_newline(tail_lines)) by {
                        assert forall|i: int, m: int|
                            0 <= i < tail_lines.len() && 0 <= m < tail_lines[i].len() implies tail_lines[i][m]
                            != '\n' by {
                            assert(tail_lines[i] == rest[i + k]);
                        }
                    }
                    lemma_cues_well_formed(tail_lines);
                    if k > 0 {
                        let i = find(line, arrow())->0;
                        lemma_find(line, arrow());
                        // the start: before the first separator
                        assert(a == line.take(i as int));
                        assert(a =~= line.subrange(0, i as int));
                        lemma_part_no_char(line, 0, i as int, '\n');
                        assert forall|j: int| 0 <= j && j + 3 <= a.len() implies !matches_at(
                            a,
                            arrow(),
                            j,
                        ) by {
                            if matches_at(a, arrow(), j) {
                                assert(a.subrange(j, j + 3) =~= line.subrange(j, j + 3));
                                assert(matches_at(line, arrow(), j));
                            }
                        }
                        lemma_find_none(a, arrow());
                        lemma_trim_no_newline(a);
                        lemma_trim_no_arrow(a);
                        // the end: after it, with no further separator
                        assert(b =~= line.subrange(i as int + 3, line.len() as int));
                        lemma_part_no_char(line, i as int + 3, line.len() as int, '\n');
                        lemma_trim_no_newline(b);
                        lemma_trim_no_arrow(b);
                        // the text: the trimmed, non-blank lines of the block
                        let block = rest.take(k as int);
                        let ts = trim_all(block);
                        assert forall|j: int| 0 <= j < ts.len() implies (#[trigger] ts[j]).len() > 0
                            && ts[j].last() != '\r' && trim(ts[j]) == ts[j] && no_newline(ts[j]) by {
                            assert(ts[j] == trim(rest[j]));
                            assert(no_newline(rest[j])) by {
                                assert forall|m: int| 0 <= m < rest[j].len() implies rest[j][m]
                                    != '\n' by {
                                    assert(rest[j][m] != '\n');
                                }
                            }
                            lemma_trim_no_newline(rest[j]);
                            lemma_trimmed(ts[j]);
                        }
                        assert forall|j: int, m: int| 0 <= j < ts.len() && 0 <= m < ts[j].len() implies ts[j][m]
                            != '\n' by {
                            assert(no_newline(ts[j]));
                        }
                        lemma_lines_of_join(ts);
                        let c = SrtCue { text: join(ts, seq!['\n']), start: trim(a), end: trim(b) };
                        assert(text_well_formed(c.text));
                        assert(cue_well_formed(c));
                        let out = cues_of_lines(ls);
                        assert(out == seq![c] + cues_of_lines(tail_lines));
                        assert forall|j: int| 0 <= j < out.len() implies cue_well_formed(
                            #[trigger] out[j],
                        ) by {
                            if j > 0 {
                                assert(out[j] == cues_of_lines(tail_lines)[j - 1]);
                            }
                        }
                    } else {
                        assert(cues_of_lines(ls) == cues_of_lines(tail_lines));
                    }
                },
                None => {
                    assert(cues_of_lines(ls) == cues_of_lines(rest));
                },
            }
        } else {
            assert(cues_of_lines(ls) == cues_of_lines(rest));
        }
    }
}

// ---------------------------------------------------------------------------
// Lines of the written text
// ---------------------------------------------------------------------------

proof fn lemma_no_ws_end_of_trimmed(s: Seq<char>)
    requires
        trim(s) == s,
        s.len() > 0,
    ensures
        s.last() != '\n',
        s.last() != '\r',
        s[0] != ' ',
        !is_ws(s[0]),
        !is_ws(s.last()),
{
    lemma_trimmed(s);
}

proof fn lemma_range_no_newline(c: SrtCue)
    requires
        cue_well_formed(c),
    ensures
        no_newline(time_range_text(c.start, c.end)),
        time_range_text(c.start, c.end).last() != '\r',
{
    let r = time_range_text(c.start, c.end);
    let a = c.start.len();
    assert forall|k: int| 0 <= k < r.len() implies r[k] != '\n' by {
        if k < a {
            assert(r[k] == c.start[k]);
        } else if k >= a + 5 {
            assert(r[k] == c.end[k - a - 5]);
        }
    }
    if c.end.len() > 0 {
        lemma_no_ws_end_of_trimmed(c.end);
        assert(r.last() == c.end.last());
    }
}

/// The lines of one written cue.
proof fn lemma_lines_of_block(n: nat, c: SrtCue)
    requires
        cue_well_formed(c),
    ensures
        lines(cue_block(n, c)) == cue_lines(n, c),
{
    let d = dec(n);
    let r = time_range_text(c.start, c.end);
    let t = c.text;
    let p1 = d + seq!['\n'];
    let p2 = r + seq!['\n'];
    let p3 = t + seq!['\n'];
    let p4 = seq!['\n'];
    assert(cue_block(n, c) =~= p1 + (p2 + (p3 + p4)));
    lemma_dec_digits(n);
    assert forall|k: int| 0 <= k < d.len() implies d[k] != '\n' by {
        assert(is_digit(d[k]));
    }
    assert(is_digit(d.last()));
    lemma_lines_single(d);
    lemma_range_no_newline(c);
    lemma_lines_single(r);
    let ls = lines(t);
    lemma_join_last(ls, seq!['\n']);
    lemma_no_ws_end_of_trimmed(ls.last());
    lemma_lines_add_newline(t);
    lemma_lines_single(Seq::<char>::empty());
    assert(Seq::<char>::empty() + seq!['\n'] =~= p4);
    lemma_lines_append(p1, p2 + (p3 + p4));
    lemma_lines_append(p2, p3 + p4);
    lemma_lines_append(p3, p4);
    assert(lines(cue_block(n, c)) =~= cue_lines(n, c));
}

proof fn lemma_srt_text_ends(cs: Seq<SrtCue>)
    requires
        cs.len() > 0,
    ensures
        srt_text(cs).len() > 0,
        srt_text(cs).last() == '\n',
{
}

proof fn lemma_lines_of_srt_text(cs: Seq<SrtCue>)
    requires
        forall|i: int| 0 <= i < cs.len() ==> cue_well_formed(#[trigger] cs[i]),
    ensures
        lines(srt_text(cs)) == blocks_lines(cs, 0),
    decreases cs.len(),
{
    if cs.len() > 0 {
        let init = cs.drop_last();
        assert forall|i: int| 0 <= i < init.len() implies cue_well_formed(#[trigger] init[i]) by {
            assert(init[i] == cs[i]);
        }
        lemma_lines_of_srt_text(init);
        assert(cue_well_formed(cs[cs.len() - 1]));
        lemma_lines_of_block(cs.len(), cs.last());
        if init.len() > 0 {
            lemma_srt_text_ends(init);
            lemma_lines_append(srt_text(init), cue_block(cs.len(), cs.last()));
        } else {
            assert(srt_text(init) + cue_block(cs.len(), cs.last()) =~= cue_block(
                cs.len(),
                cs.last(),
            ));
            assert(blocks_lines(init, 0) + cue_lines(cs.len(), cs.last()) =~= cue_lines(
                cs.len(),
                cs.last(),
            ));
        }
    }
}

proof fn lemma_blocks_front(cs: Seq<SrtCue>, off: nat)
    requires
        cs.len() > 0,
    ensures
        blocks_lines(cs, off) == cue_lines(off + 1, cs[0]) + blocks_lines(cs.drop_first(), off + 1),
    decreases cs.len(),
{
    if cs.len() == 1 {
        assert(blocks_lines(cs.drop_last(), off) =~= Seq::<Seq<char>>::empty());
        assert(blocks_lines(cs.drop_first(), off + 1) =~= Seq::<Seq<char>>::empty());
        assert(blocks_lines(cs, off) =~= cue_lines(off + 1, cs[0]));
    } else {
        lemma_blocks_front(cs.drop_last(), off);
        assert(cs.drop_last().drop_first() =~= cs.drop_first().drop_last());
        assert(cs.drop_first().last() == cs.last());
        assert(blocks_lines(cs, off) =~= cue_lines(off + 1, cs[0]) + blocks_lines(
            cs.drop_first(),
            off + 1,
        ));
    }
}

// ---------------------------------------------------------------------------
// Reading the lines back
// ---------------------------------------------------------------------------

proof fn lemma_find_none_without_dash(s: Seq<char>)
    requires
        forall|k: int| 0 <= k < s.len() ==> s[k] != '-',
    ensures
        find(s, arrow()) is None,
{
    assert forall|j: int| 0 <= j && j + arrow().len() <= s.len() implies !matches_at(
        s,
        arrow(),
        j,
    ) by {
        if matches_at(s, arrow(), j) {
            assert(s.subrange(j, j + 3)[0] == s[j]);
        }
    }
    lemma_find_none(s, arrow());
}

/// The trimmed time range line of a well-formed cue.
pub open spec fn range_head(start: Seq<char>) -> Seq<char> {
    if start.len() > 0 {
        start.push(' ')
    } else {
        seq![]
    }
}

pub open spec fn range_tail(end: Seq<char>) -> Seq<char> {
    if end.len() > 0 {
        seq![' '] + end
    } else {
        seq![]
    }
}

proof fn lemma_trim_range(c: SrtCue)
    requires
        cue_well_formed(c),
    ensures
        trim(time_range_text(c.start, c.end)) == range_head(c.start) + arrow() + range_tail(
            c.end,
        ),
{
    let s = c.start;
    let e = c.end;
    let r = time_range_text(s, e);
    if s.len() > 0 {
        lemma_no_ws_end_of_trimmed(s);
        assert(trim_start(r) == r);
    } else {
        assert(r[0] == ' ');
        assert(r.drop_first()[0] == '-');
        assert(trim_start(r.drop_first()) == r.drop_first());
        assert(trim_start(r) == r.drop_first());
    }
    let u = trim_start(r);
    assert(u =~= range_head(s) + arrow() + seq![' '] + e);
    if e.len() > 0 {
        lemma_no_ws_end_of_trimmed(e);
        assert(u.last() == e.last());
        assert(trim_end(u) == u);
        assert(u =~= range_head(s) + arrow() + range_tail(e));
    } else {
        assert(u.last() == ' ');
        assert(u.drop_last().last() == '>');
        assert(trim_end(u.drop_last()) == u.drop_last());
        assert(trim_end(u) == u.drop_last());
        assert(u.drop_last() =~= range_head(s) + arrow() + range_tail(e));
    }
}

proof fn lemma_range_line(c: SrtCue)
    requires
        cue_well_formed(c),
    ensures
        trim(time_range_text(c.start, c.end)).len() > 0,
        !is_u32_text(trim(time_range_text(c.start, c.end))),
        split_arrow(trim(time_range_text(c.start, c.end))) == Some(
            (range_head(c.start), range_tail(c.end)),
        ),
        trim(range_head(c.start)) == c.start,
        trim(range_tail(c.end)) == c.end,
{
    let s = c.start;
    let e = c.end;
    let h = range_head(s);
    let tl = range_tail(e);
    lemma_trim_range(c);
    let t = h + arrow() + tl;
    let m = h.len() as int;
    assert(t[m] == '-');
    // not a number: the dash is not a digit
    let d = u32_digits(t);
    if t.len() > 0 && t[0] == '+' {
        assert(m > 0) by {
            if m == 0 {
                assert(t[0] == '-');
            }
        }
        assert(d[m - 1] == '-');
        assert(!is_digit(d[m - 1]));
    } else {
        assert(d[m] == '-');
        assert(!is_digit(d[m]));
    }
    assert(!all_digits(d));
    // the first `-->` is the separator
    lemma_find(s, arrow());
    lemma_find(e, arrow());
    assert(t.subrange(m, m + 3) =~= arrow());
    assert forall|j: int| 0 <= j < m implies !matches_at(t, arrow(), j) by {
        if matches_at(t, arrow(), j) {
            if j + 3 <= s.len() {
                assert(t.subrange(j, j + 3) =~= s.subrange(j, j + 3));
                assert(matches_at(s, arrow(), j));
            } else {
                let q = s.len() - j;
                assert(t[s.len() as int] == ' ');
                assert(t.subrange(j, j + 3)[q] == t[s.len() as int]);
                assert(arrow()[q] != ' ');
            }
        }
    }
    lemma_find_first(t, arrow(), m);
    let rest = t.skip(m + 3);
    assert(rest =~= tl);
    assert forall|j: int| 0 <= j && j + 3 <= rest.len() implies !matches_at(rest, arrow(), j) by {
        if matches_at(rest, arrow(), j) {
            if j == 0 {
                assert(rest[0] == ' ');
                assert(rest.subrange(0, 3)[0] == rest[0]);
            } else {
                assert(rest.subrange(j, j + 3) =~= e.subrange(j - 1, j + 2));
                assert(matches_at(e, arrow(), j - 1));
            }
        }
    }
    lemma_find_none(rest, arrow());
    assert(t.take(m) =~= h);
    // trimming the two parts gives back the timestamps
    if s.len() > 0 {
        lemma_trimmed(s);
        assert(h[0] == s[0]);
        assert(trim_start(h) == h);
        assert(h.drop_last() =~= s);
        assert(trim_end(h) == trim_end(s));
    }
    if e.len() > 0 {
        lemma_trimmed(e);
        assert(tl.drop_first() =~= e);
        assert(trim_start(tl) == trim_start(e));
    }
}

proof fn lemma_text_block_len_append(a: Seq<Seq<char>>, b: Seq<Seq<char>>)
    requires
        forall|i: int| 0 <= i < a.len() ==> trim(#[trigger] a[i]).len() > 0,
    ensures
        text_block_len(a + b) == a.len() + text_block_len(b),
    decreases a.len(),
{
    if a.len() > 0 {
        let a2 = a.drop_first();
        assert forall|i: int| 0 <= i < a2.len() implies trim(#[trigger] a2[i]).len() > 0 by {
            assert(a2[i] == a[i + 1]);
        }
        lemma_text_block_len_append(a2, b);
        assert((a + b).drop_first() =~= a2 + b);
        assert((a + b)[0] == a[0]);
    } else {
        assert(a + b =~= b);
    }
}

/// Reading one written cue, followed by anything.
proof fn lemma_cues_of_block(n: nat, c: SrtCue, rest: Seq<Seq<char>>)
    requires
        cue_well_formed(c),
    ensures
        cues_of_lines(cue_lines(n, c) + rest) == seq![c] + cues_of_lines(rest),
{
    let x = cue_lines(n, c) + rest;
    let d = dec(n);
    let r = time_range_text(c.start, c.end);
    let tls = lines(c.text);
    let blank = Seq::<char>::empty();
    // the number line is skipped
    lemma_dec_digits(n);
    assert(is_digit(d[0]) && is_digit(d.last()));
    lemma_trim_id(d);
    assert(x[0] == d);
    let x1 = x.drop_first();
    assert(x1 =~= seq![r] + tls + seq![blank] + rest);
    if !is_u32_text(d) {
        assert forall|k: int| 0 <= k < d.len() implies d[k] != '-' by {
            assert(is_digit(d[k]));
        }
        lemma_find_none_without_dash(d);
    }
    assert(cues_of_lines(x) == cues_of_lines(x1));
    // the time range line starts the cue
    lemma_range_line(c);
    let x2 = x1.drop_first();
    assert(x2 =~= tls + (seq![blank] + rest));
    assert forall|i: int| 0 <= i < tls.len() implies trim(#[trigger] tls[i]).len() > 0 by {
        assert(tls[i].len() > 0 && trim(tls[i]) == tls[i]);
    }
    lemma_text_block_len_append(tls, seq![blank] + rest);
    assert(trim(blank) =~= blank);
    assert((seq![blank] + rest)[0] == blank);
    assert(text_block_len(seq![blank] + rest) == 0);
    let k = tls.len();
    assert(x2.take(k as int) =~= tls);
    assert(trim_all(tls) =~= tls) by {
        assert forall|i: int| 0 <= i < tls.len() implies trim_all(tls)[i] == tls[i] by {
            assert(trim(tls[i]) == tls[i]);
        }
    }
    assert(x2.skip(k as int) =~= seq![blank] + rest);
    assert((seq![blank] + rest).drop_first() =~= rest);
    assert(cues_of_lines(seq![blank] + rest) == cues_of_lines(rest));
    assert(x1[0] == r);
    assert(cues_of_lines(x1) == seq![
        SrtCue { text: join(tls, seq!['\n']), start: c.start, end: c.end },
    ] + cues_of_lines(x2.skip(k as int)));
    assert(SrtCue { text: join(tls, seq!['\n']), start: c.start, end: c.end } == c);
}

proof fn lemma_cues_of_blocks(cs: Seq<SrtCue>, off: nat)
    requires
        forall|i: int| 0 <= i < cs.len() ==> cue_well_formed(#[trigger] cs[i]),
    ensures
        cues_of_lines(blocks_lines(cs, off)) == cs,
    decreases cs.len(),
{
    if cs.len() == 0 {
        assert(blocks_lines(cs, off) =~= Seq::<Seq<char>>::empty());
        assert(cs =~= Seq::<SrtCue>::empty());
    } else {
        let tail = cs.drop_first();
        assert forall|i: int| 0 <= i < tail.len() implies cue_well_formed(#[trigger] tail[i]) by {
            assert(tail[i] == cs[i + 1]);
        }
        lemma_blocks_front(cs, off);
        assert(cue_well_formed(cs[0]));
        lemma_cues_of_block(off + 1, cs[0], blocks_lines(tail, off + 1));
        lemma_cues_of_blocks(tail, off + 1);
        assert(seq![cs[0]] + tail =~= cs);
    }
}

} // verus!
