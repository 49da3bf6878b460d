//! Texts used when a reference voice is cut from the original audio: the
//! segment file names, the concatenation list, and the transcript of the
//! chosen segments.
use vstd::prelude::*;

use crate::provider::strs;
use crate::subtitle::SrtSentenceWithStrTime;
use crate::text::{chars_of, dec, first_line, join, join_exec, push_dec, views};
use crate::emotion::first_line_of;

verus! {

broadcast use vstd::string::group_string_axioms;

/// The file of the `i`-th extracted segment: `seg_{i}.wav`.
pub fn segment_file_name(i: u64) -> (r: String)
    ensures
        r@ == "seg_"@ + dec(i as nat) + ".wav"@,
{
    let mut r = String::from_str("seg_");
    push_dec(&mut r, i);
    r.append(".wav");
    r
}

/// The ffmpeg concatenation list: one `file '{path}'` line per segment.
pub open spec fn concat_list_text(paths: Seq<Seq<char>>) -> Seq<char>
    decreases paths.len(),
{
    if paths.len() == 0 {
        seq![]
    } else {
        concat_list_text(paths.drop_last()) + "file '"@ + paths.last() + "'\n"@
    }
}

/// **Law.** The list has one line per file, in order: a single file gives
/// the line `file '{path}'`, and the files `a` followed by `b` give the
/// lines of `a` followed by those of `b`.
pub proof fn concat_list_line_per_file(a: Seq<Seq<char>>, b: Seq<Seq<char>>, p: Seq<char>)
    ensures
        concat_list_text(seq![p]) == "file '"@ + p + "'\n"@,
        concat_list_text(a + b) == concat_list_text(a) + concat_list_text(b),
    decreases b.len(),
{
    assert(seq![p].drop_last() =~= Seq::<Seq<char>>::empty());
    assert(seq![p].last() == p);
    assert(concat_list_text(Seq::<Seq<char>>::empty()) =~= Seq::<char>::empty());
    assert(concat_list_text(seq![p]) =~= "file '"@ + p + "'\n"@);
    if b.len() == 0 {
        assert(a + b =~= a);
        assert(concat_list_text(a) + concat_list_text(b) =~= concat_list_text(a));
    } else {
        concat_list_line_per_file(a, b.drop_last(), p);
        assert((a + b).drop_last() =~= a + b.drop_last());
        assert((a + b).last() == b.last());
        assert(concat_list_text(a + b) =~= concat_list_text(a) + concat_list_text(b));
    }
}

/// The concatenation list of the segment files, in order.
pub fn concat_list(paths: &Vec<String>) -> (r: String)
    ensures
        r@ == concat_list_text(strs(paths@)),
{
    let mut r = String::new();
    let mut i: usize = 0;
    while i < paths.len()
        invariant
            i <= paths.len(),
            r@ == concat_list_text(strs(paths@).take(i as int)),
        decreases paths.len() - i,
    {
        let ghost before = r@;
        r.append("file '");
        r.append(paths[i].as_str());
        r.append("'\n");
        assert(strs(paths@).take(i + 1).drop_last() =~= strs(paths@).take(i as int));
        assert(strs(paths@).take(i + 1).last() == paths@[i as int]@);
        assert(r@ =~= before + "file '"@ + paths@[i as int]@ + "'\n"@);
        i = i + 1;
    }
    assert(strs(paths@).take(paths.len() as int) =~= strs(paths@));
    r
}

/// The first lines of the subtitles at the given positions that exist.
pub open spec fn chosen_first_lines(subs: Seq<SrtSentenceWithStrTime>, idx: Seq<usize>) -> Seq<
    Seq<char>,
>
    decreases idx.len(),
{
    if idx.len() == 0 {
        seq![]
    } else {
        let rest = chosen_first_lines(subs, idx.drop_last());
        let i = idx.last() as int;
        if i < subs.len() {
            rest.push(first_line(subs[i].text@))
        } else {
            rest
        }
    }
}

/// **Law.** The transcript takes the chosen subtitles in the order chosen,
/// each once per choice: choosing `a` then `b` gives the lines of `a` then
/// those of `b`; choosing an existing subtitle `i` alone gives its first
/// line; and a position past the end gives nothing.
pub proof fn chosen_lines_in_order(
    subs: Seq<SrtSentenceWithStrTime>,
    a: Seq<usize>,
    b: Seq<usize>,
    i: usize,
)
    ensures
        chosen_first_lines(subs, a + b) == chosen_first_lines(subs, a) + chosen_first_lines(
            subs,
            b,
        ),
        i < subs.len() ==> chosen_first_lines(subs, seq![i]) == seq![first_line(subs[i as int].text@)],
        i >= subs.len() ==> chosen_first_lines(subs, seq![i]).len() == 0,
    decreases b.len(),
{
    assert(seq![i].drop_last() =~= Seq::<usize>::empty());
    assert(seq![i].last() == i);
    assert(chosen_first_lines(subs, Seq::<usize>::empty()) =~= Seq::<Seq<char>>::empty());
    assert(chosen_first_lines(subs, seq![i]) =~= if i < subs.len() {
        seq![first_line(subs[i as int].text@)]
    } else {
        Seq::<Seq<char>>::empty()
    });
    if b.len() == 0 {
        assert(a + b =~= a);
        assert(chosen_first_lines(subs, a) + chosen_first_lines(subs, b) =~= chosen_first_lines(subs, a));
    } else {
        chosen_lines_in_order(subs, a, b.drop_last(), i);
        assert((a + b).drop_last() =~= a + b.drop_last());
        assert((a + b).last() == b.last());
        let x = chosen_first_lines(subs, a);
        let y = chosen_first_lines(subs, b.drop_last());
        if (b.last() as int) < subs.len() {
            assert((x + y).push(first_line(subs[b.last() as int].text@)) =~= x + y.push(
                first_line(subs[b.last() as int].text@),
            ));
        }
    }
}

/// The transcript of the reference voice: the first line of each chosen
/// subtitle, in the order chosen, joined with spaces.
pub fn reference_transcript(subtitles: &Vec<SrtSentenceWithStrTime>, chosen: &Vec<usize>) -> (r:
    String)
    ensures
        r@ == join(chosen_first_lines(subtitles@, chosen@), seq![' ']),
{
    let mut parts: Vec<Vec<char>> = Vec::new();
    let mut k: usize = 0;
    while k < chosen.len()
        invariant
            k <= chosen.len(),
            views(parts@) == chosen_first_lines(subtitles@, chosen@.take(k as int)),
        decreases chosen.len() - k,
    {
        let i = chosen[k];
        assert(chosen@.take(k + 1).drop_last() =~= chosen@.take(k as int));
        assert(chosen@.take(k + 1).last() == i);
        if i < subtitles.len() {
            let line = first_line_of(subtitles[i].text.as_str());
            let ghost before = views(parts@);
            parts.push(chars_of(line.as_str()));
            assert(views(parts@) =~= before.push(line@));
        }
        k = k + 1;
    }
    assert(chosen@.take(chosen.len() as int) =~= chosen@);
    let sep: Vec<char> = vec![' '];
    assert(sep@ =~= seq![' ']);
    let joined = join_exec(&parts, &sep);
    crate::text::string_of(&joined)
}

} // verus!
