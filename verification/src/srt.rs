//! Reading and writing SRT subtitle files.
//!
//! `srt_cues` states what `parse_srt` reads from a file; `srt_text` states
//! what `render_srt` writes. `lemma_parse_render` proves that reading back
//! what was written gives the cues that were written.
use vstd::prelude::*;

use crate::subtitle::{cue_views, time_range_text, SrtCue, SrtSentenceWithStrTime};
use crate::text::{
    chars_of, copy_range, dec, find, find_exec, lemma_find, is_u32_text, is_u32_text_exec, join, join_exec,
    lines, push_char, push_dec, split_lines, string_of, trim, trim_chars, views,
};

verus! {

broadcast use vstd::string::group_string_axioms;

/// The separator of an SRT time range line.
pub open spec fn arrow() -> Seq<char> {
    seq!['-', '-', '>']
}

/// `line.split("-->")` when it yields exactly two parts.
pub open spec fn split_arrow(line: Seq<char>) -> Option<(Seq<char>, Seq<char>)> {
    match find(line, arrow()) {
        Some(i) => {
            let rest = line.skip(i as int + 3);
            if find(rest, arrow()) is Some {
                None
            } else {
                Some((line.take(i as int), rest))
            }
        },
        None => None,
    }
}

/// How many lines at the front of `ls` are non-blank.
pub open spec fn text_block_len(ls: Seq<Seq<char>>) -> nat
    decreases ls.len(),
{
    if ls.len() > 0 && trim(ls[0]).len() > 0 {
        1 + text_block_len(ls.drop_first())
    } else {
        0
    }
}

pub proof fn lemma_text_block_len_bound(ls: Seq<Seq<char>>)
    ensures
        text_block_len(ls) <= ls.len(),
        forall|k: int| 0 <= k < text_block_len(ls) ==> trim(#[trigger] ls[k]).len() > 0,
        text_block_len(ls) < ls.len() ==> trim(ls[text_block_len(ls) as int]).len() == 0,
    decreases ls.len(),
{
    if ls.len() > 0 && trim(ls[0]).len() > 0 {
        lemma_text_block_len_bound(ls.drop_first());
        assert forall|k: int| 0 <= k < text_block_len(ls) implies trim(#[trigger] ls[k]).len()
            > 0 by {
            if k > 0 {
                assert(ls[k] == ls.drop_first()[k - 1]);
            }
        }
    }
}

/// The trimmed lines, as the text lines of a cue are kept.
pub open spec fn trim_all(ls: Seq<Seq<char>>) -> Seq<Seq<char>> {
    ls.map_values(|l: Seq<char>| trim(l))
}

/// The cues read from a sequence of lines.
///
/// A line that is blank or a number is skipped. A line of the form
/// `start --> end` (exactly one `-->`) starts a cue whose text is the
/// following non-blank lines, trimmed and joined with `\n`; a cue without
/// text lines is dropped. Any other line is skipped.
pub open spec fn cues_of_lines(ls: Seq<Seq<char>>) -> Seq<SrtCue>
    decreases ls.len(),
{
    if ls.len() == 0 {
        seq![]
    } else {
        let line = trim(ls[0]);
        let rest = ls.drop_first();
        if line.len() == 0 || is_u32_text(line) {
            cues_of_lines(rest)
        } else {
            match split_arrow(line) {
                Some((a, b)) => {
                    let k = text_block_len(rest);
                    proof {
                        lemma_text_block_len_bound(rest);
                    }
                    let tail = cues_of_lines(rest.skip(k as int));
                    if k > 0 {
                        seq![
                            SrtCue {
                                text: join(trim_all(rest.take(k as int)), seq!['\n']),
                                start: trim(a),
                                end: trim(b),
                            },
                        ] + tail
                    } else {
                        tail
                    }
                },
                None => cues_of_lines(rest),
            }
        }
    }
}

/// The cues `parse_srt` reads from the text of an SRT file.
pub open spec fn srt_cues(content: Seq<char>) -> Seq<SrtCue> {
    cues_of_lines(lines(content))
}

/// Parses the text of an SRT file into its cues.
pub fn parse_srt(content: &str) -> (r: Vec<SrtSentenceWithStrTime>)
    ensures
        cue_views(r@) == srt_cues(content@),
{
    let chars = chars_of(content);
    let ls = split_lines(&chars);
    let arrow_pat: Vec<char> = vec!['-', '-', '>'];
    let newline: Vec<char> = vec!['\n'];
    assert(arrow_pat@ =~= arrow());
    assert(newline@ =~= seq!['\n']);
    let ghost all = views(ls@);
    let mut results: Vec<SrtSentenceWithStrTime> = Vec::new();
    let mut i: usize = 0;
    assert(all.skip(0) =~= all);
    assert(cue_views(results@) =~= Seq::<SrtCue>::empty());
    while i < ls.len()
        invariant
            i <= ls.len(),
            all == views(ls@),
            all == lines(chars@),
            chars@ == content@,
            arrow_pat@ == arrow(),
            newline@ == seq!['\n'],
            cues_of_lines(all) == cue_views(results@) + cues_of_lines(all.skip(i as int)),
        decreases ls.len() - i,
    {
        let ghost cur = all.skip(i as int);
        let ghost rest = cur.drop_first();
        assert(rest =~= all.skip(i + 1));
        assert(cur[0] == ls@[i as int]@);
        let line = trim_chars(&ls[i]);
        let mut next = i + 1;
        if line.len() == 0 || is_u32_text_exec(&line) {
        } else {
            match find_exec(&line, &arrow_pat) {
                Some(p) => {
                    proof {
                        lemma_find(line@, arrow_pat@);
                    }
                    let rest_chars = copy_range(&line, p + 3, line.len());
                    assert(rest_chars@ =~= line@.skip(p + 3));
                    if find_exec(&rest_chars, &arrow_pat).is_none() {
                        let head = copy_range(&line, 0, p);
                        assert(head@ =~= line@.take(p as int));
                        let start = trim_chars(&head);
                        let end = trim_chars(&rest_chars);
                        let mut texts: Vec<Vec<char>> = Vec::new();
                        let mut j = i + 1;
                        proof {
                            assert(all.skip(i + 1) =~= rest);
                            assert(all.subrange(i + 1, i + 1).map_values(|l: Seq<char>| trim(l))
                                =~= views(texts@));
                        }
                        while j < ls.len()
                            invariant
                                i + 1 <= j <= ls.len(),
                                all == views(ls@),
                                views(texts@) == trim_all(all.subrange(i + 1, j as int)),
                                text_block_len(all.skip(i + 1)) == (j - (i + 1)) + text_block_len(
                                    all.skip(j as int),
                                ),
                            ensures
                                i + 1 <= j <= ls.len(),
                                views(texts@) == trim_all(all.subrange(i + 1, j as int)),
                                text_block_len(all.skip(i + 1)) == j - (i + 1),
                            decreases ls.len() - j,
                        {
                            let t = trim_chars(&ls[j]);
                            assert(all.skip(j as int)[0] == ls@[j as int]@);
                            if t.len() == 0 {
                                break;
                            }
                            assert(all.skip(j as int).drop_first() =~= all.skip(j + 1));
                            let ghost texts0 = views(texts@);
                            texts.push(t);
                            assert(views(texts@) =~= texts0.push(t@));
                            assert(trim_all(all.subrange(i + 1, j + 1)) =~= trim_all(
                                all.subrange(i + 1, j as int),
                            ).push(trim(all[j as int])));
                            j = j + 1;
                        }
                        proof {
                            if j == ls.len() {
                                assert(all.skip(j as int) =~= Seq::<Seq<char>>::empty());
                            }
                            assert(rest.take((j - (i + 1)) as int) =~= all.subrange(
                                i + 1,
                                j as int,
                            ));
                            assert(rest.skip((j - (i + 1)) as int) =~= all.skip(j as int));
                        }
                        if texts.len() > 0 {
                            let text = join_exec(&texts, &newline);
                            let cue = SrtSentenceWithStrTime {
                                text: string_of(&text),
                                start: string_of(&start),
                                end: string_of(&end),
                            };
                            let ghost before = cue_views(results@);
                            results.push(cue);
                            assert(cue_views(results@) =~= before.push(cue@));
                        }
                        next = j;
                    }
                },
                None => {},
            }
        }
        proof {
            assert(cue_views(results@) + cues_of_lines(all.skip(next as int)) =~= cue_views(
                results@,
            ) + cues_of_lines(all.skip(next as int)));
        }
        i = next;
    }
    assert(all.skip(ls.len() as int) =~= Seq::<Seq<char>>::empty());
    assert(cue_views(results@) + Seq::<SrtCue>::empty() =~= cue_views(results@));
    results
}

/// The cues of several SRT files, one after the other.
pub open spec fn merged_cues(contents: Seq<Seq<char>>) -> Seq<SrtCue>
    decreases contents.len(),
{
    if contents.len() == 0 {
        seq![]
    } else {
        merged_cues(contents.drop_last()) + srt_cues(contents.last())
    }
}

/// **Law.** Merging is concatenation, file by file: merging no file gives
/// no cue, merging one file gives exactly the cues read from it, and merging
/// the files `a` followed by the files `b` gives the merge of `a` followed by
/// the merge of `b`. So every file contributes its own cues in place, and a
/// file without cues contributes nothing and takes nothing from the others.
pub proof fn merge_is_concatenation(a: Seq<Seq<char>>, b: Seq<Seq<char>>, c: Seq<char>)
    ensures
        merged_cues(Seq::<Seq<char>>::empty()).len() == 0,
        merged_cues(seq![c]) == srt_cues(c),
        merged_cues(a + b) == merged_cues(a) + merged_cues(b),
        merged_cues(a + b).len() == merged_cues(a).len() + merged_cues(b).len(),
    decreases b.len(),
{
    assert(seq![c].drop_last() =~= Seq::<Seq<char>>::empty());
    assert(seq![c].last() == c);
    assert(merged_cues(Seq::<Seq<char>>::empty()) =~= Seq::<SrtCue>::empty());
    assert(merged_cues(seq![c]) =~= merged_cues(Seq::<Seq<char>>::empty()) + srt_cues(c));
    assert(merged_cues(seq![c]) =~= srt_cues(c));
    if b.len() == 0 {
        assert(a + b =~= a);
        assert(merged_cues(a) + merged_cues(b) =~= merged_cues(a));
    } else {
        merge_is_concatenation(a, b.drop_last(), c);
        assert((a + b).drop_last() =~= a + b.drop_last());
        assert((a + b).last() == b.last());
        assert(merged_cues(a + b) =~= merged_cues(a) + merged_cues(b));
    }
}

/// Parses several SRT files and puts their cues one after the other (the
/// merged file is numbered afresh when it is written).
pub fn merge_srt_contents(contents: &Vec<String>) -> (r: Vec<SrtSentenceWithStrTime>)
    ensures
        cue_views(r@) == merged_cues(contents@.map_values(|c: String| c@)),
{
    let ghost cs = contents@.map_values(|c: String| c@);
    let mut all: Vec<SrtSentenceWithStrTime> = Vec::new();
    let mut i: usize = 0;
    while i < contents.len()
        invariant
            i <= contents.len(),
            cs == contents@.map_values(|c: String| c@),
            cue_views(all@) == merged_cues(cs.take(i as int)),
        decreases contents.len() - i,
    {
        let mut parsed = parse_srt(contents[i].as_str());
        let ghost before = cue_views(all@);
        let ghost added = cue_views(parsed@);
        all.append(&mut parsed);
        assert(cs.take(i + 1).drop_last() =~= cs.take(i as int));
        assert(cs.take(i + 1).last() == contents@[i as int]@);
        assert(cue_views(all@) =~= before + added);
        i = i + 1;
    }
    assert(cs.take(contents.len() as int) =~= cs);
    all
}

/// One cue as `render_srt` writes it: its number, its time range line,
/// its text, and a blank line.
pub open spec fn cue_block(n: nat, c: SrtCue) -> Seq<char> {
    dec(n) + seq!['\n'] + time_range_text(c.start, c.end) + seq!['\n'] + c.text + seq!['\n', '\n']
}

/// The text of an SRT file holding the cues `cs`, numbered from 1.
pub open spec fn srt_text(cs: Seq<SrtCue>) -> Seq<char>
    decreases cs.len(),
{
    if cs.len() == 0 {
        seq![]
    } else {
        srt_text(cs.drop_last()) + cue_block(cs.len(), cs.last())
    }
}

/// The text of an SRT file holding `entries`, numbered from 1
/// (what `write_srt` writes).
pub fn render_srt(entries: &Vec<SrtSentenceWithStrTime>) -> (s: String)
    ensures
        s@ == srt_text(cue_views(entries@)),
{
    let mut out = String::new();
    let mut i: usize = 0;
    while i < entries.len()
        invariant
            i <= entries.len(),
            out@ == srt_text(cue_views(entries@).take(i as int)),
        decreases entries.len() - i,
    {
        let e = &entries[i];
        let ghost before = out@;
        push_dec(&mut out, (i + 1) as u64);
        push_char(&mut out, '\n');
        out.append(e.start.as_str());
        out.append(" --> ");
        out.append(e.end.as_str());
        push_char(&mut out, '\n');
        out.append(e.text.as_str());
        push_char(&mut out, '\n');
        push_char(&mut out, '\n');
        proof {
            reveal_strlit(" --> ");
            let cs = cue_views(entries@).take(i + 1);
            assert(cs.drop_last() =~= cue_views(entries@).take(i as int));
            assert(cs.last() == e@);
            assert(out@ =~= before + cue_block((i + 1) as nat, e@));
        }
        i = i + 1;
    }
    assert(cue_views(entries@).take(entries.len() as int) =~= cue_views(entries@));
    out
}

} // verus!
