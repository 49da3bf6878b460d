//! Emotion tags for expressive speech synthesis.
//!
//! The language model is asked for one tag per subtitle line; its reply is
//! mapped to one of a fixed set of tags, `[neutral]` when nothing matches.
use vstd::prelude::*;

use crate::subtitle::SrtSentenceWithStrTime;
use crate::text::{
    chars_of, contains, copy_range, find, find_exec, first_line, lemma_find, lines, matches_at,
    replace_all, replace_all_exec,
    split_lines, string_of, trim, trim_chars, views,
};

verus! {

broadcast use vstd::string::group_string_axioms;

/// The emotion tags that speech synthesis understands, `[neutral]` first.
pub open spec fn emotion_tags() -> Seq<Seq<char>> {
    seq![
        "[neutral]"@,
        "[excited]"@,
        "[angry]"@,
        "[sad]"@,
        "[whisper]"@,
        "[laughing]"@,
        "[serious]"@,
        "[sarcastic]"@,
        "[fearful]"@,
        "[tender]"@,
        "[professional broadcast tone]"@,
    ]
}

/// Number of emotion tags.
pub const NUM_EMOTION_TAGS: usize = 11;

/// A tag without its surrounding brackets.
pub open spec fn bracket_inner(t: Seq<char>) -> Seq<char> {
    t.subrange(1, t.len() - 1)
}

/// The first tag, from index `i` on, that occurs in `s`
/// (bracketed, or, when `bare`, without its brackets).
pub open spec fn first_tag_in(s: Seq<char>, i: nat, bare: bool) -> Option<nat>
    decreases 11 - i,
{
    if i >= 11 {
        None
    } else if contains(
        s,
        if bare {
            bracket_inner(emotion_tags()[i as int])
        } else {
            emotion_tags()[i as int]
        },
    ) {
        Some(i)
    } else {
        first_tag_in(s, i + 1, bare)
    }
}

/// The tag read from a lower-cased reply: the first tag it contains;
/// failing that, the first tag whose name it contains; failing that,
/// `[neutral]`.
pub open spec fn emotion_tag_for(lowered: Seq<char>) -> Seq<char> {
    match first_tag_in(lowered, 0, false) {
        Some(i) => emotion_tags()[i as int],
        None => match first_tag_in(lowered, 0, true) {
            Some(i) => emotion_tags()[i as int],
            None => emotion_tags()[0],
        },
    }
}

/// The name of `str::to_lowercase`'s result: the Unicode lower-case
/// mapping of every character, which depends on the text alone.
pub uninterp spec fn lowercase(s: Seq<char>) -> Seq<char>;

/// Every character is ASCII.
pub open spec fn is_ascii_text(s: Seq<char>) -> bool {
    forall|i: int| 0 <= i < s.len() ==> (s[i] as u32) < 128
}

/// The lower case of an ASCII character: `A`..`Z` become `a`..`z`, every
/// other character stays.
pub open spec fn ascii_lower_char(c: char) -> char {
    if 65 <= (c as u32) && (c as u32) <= 90 {
        ((c as u32) + 32) as char
    } else {
        c
    }
}

/// A text lower-cased character by character by `ascii_lower_char`.
pub open spec fn ascii_lowered(s: Seq<char>) -> Seq<char> {
    Seq::new(s.len(), |i: int| ascii_lower_char(s[i]))
}

/// Calls `str::to_lowercase`. The contract names its result (`lowercase`)
/// and states it for ASCII text, where the Unicode mapping lowers `A`..`Z`
/// and keeps every other character; the mapping of other characters is not
/// written out here.
#[verifier::external_body]
fn to_lowercase_text(s: &str) -> (r: String)
    ensures
        r@ == lowercase(s@),
        is_ascii_text(s@) ==> r@ == ascii_lowered(s@),
{
    s.to_lowercase()
}

/// A tag's shape: `[`, a name without brackets, `]`.
pub open spec fn bracketed(t: Seq<char>) -> bool {
    &&& t.len() >= 3
    &&& t[0] == '['
    &&& t.last() == ']'
    &&& forall|k: int| 0 < k < t.len() - 1 ==> t[k] != '[' && t[k] != ']'
}

proof fn lemma_tags_shape()
    ensures
        forall|i: int| 0 <= i < 11 ==> bracketed(#[trigger] emotion_tags()[i]),
        forall|i: int, j: int|
            0 <= i < 11 && 0 <= j < 11 && i != j ==> #[trigger] emotion_tags()[i]
                != #[trigger] emotion_tags()[j],
{
    reveal_strlit("[neutral]");
    reveal_strlit("[excited]");
    reveal_strlit("[angry]");
    reveal_strlit("[sad]");
    reveal_strlit("[whisper]");
    reveal_strlit("[laughing]");
    reveal_strlit("[serious]");
    reveal_strlit("[sarcastic]");
    reveal_strlit("[fearful]");
    reveal_strlit("[tender]");
    reveal_strlit("[professional broadcast tone]");
    let t = emotion_tags();
    assert forall|i: int, j: int| 0 <= i < 11 && 0 <= j < 11 && i != j implies #[trigger] t[i]
        != #[trigger] t[j] by {
        if t[i] == t[j] {
            assert(t[i].len() == t[j].len());
            assert(t[i][1] == t[j][1]);
            assert(t[i][2] == t[j][2]);
        }
    }
}

/// One bracketed text occurs in another only if the two are equal.
proof fn lemma_bracketed_match(a: Seq<char>, b: Seq<char>, j: int)
    requires
        bracketed(a),
        bracketed(b),
        matches_at(a, b, j),
    ensures
        a == b,
{
    let w = a.subrange(j, j + b.len());
    assert(w[0] == a[j]);
    if j > 0 {
        assert(a[j] == '[');
    }
    assert(w[b.len() - 1] == a[b.len() - 1]);
    if b.len() < a.len() {
        assert(a[b.len() - 1] == ']');
    }
    assert(a =~= w);
}

proof fn lemma_first_tag_skip(s: Seq<char>, j: nat, i: nat)
    requires
        j <= i < 11,
        forall|k: int| j <= k < i ==> !contains(s, #[trigger] emotion_tags()[k]),
        contains(s, emotion_tags()[i as int]),
    ensures
        first_tag_in(s, j, false) == Some(i),
    decreases i - j,
{
    if j < i {
        lemma_first_tag_skip(s, j + 1, i);
    }
}

/// **Law.** Each emotion tag, given as the lower-cased reply, is read as
/// itself.
pub proof fn tags_read_as_themselves()
    ensures
        forall|i: int| 0 <= i < 11 ==> emotion_tag_for(#[trigger] emotion_tags()[i]) == emotion_tags()[i],
{
    lemma_tags_shape();
    let t = emotion_tags();
    assert forall|i: int| 0 <= i < 11 implies emotion_tag_for(#[trigger] t[i]) == t[i] by {
        assert forall|k: int| 0 <= k < i implies !contains(t[i], #[trigger] t[k]) by {
            lemma_find(t[i], t[k]);
            if let Some(p) = find(t[i], t[k]) {
                lemma_bracketed_match(t[i], t[k], p as int);
            }
        }
        assert(t[i].take(t[i].len() as int) =~= t[i]);
        assert(find(t[i], t[i]) == Some(0nat));
        lemma_first_tag_skip(t[i], 0, i as nat);
    }
}

/// `first_tag_in` from `j` finds nothing when none of the tags (or names,
/// when `bare`) from `j` on occurs.
proof fn lemma_first_tag_none(s: Seq<char>, j: nat, bare: bool)
    requires
        j <= 11,
        forall|k: int|
            j <= k < 11 ==> !contains(
                s,
                if bare {
                    bracket_inner(#[trigger] emotion_tags()[k])
                } else {
                    emotion_tags()[k]
                },
            ),
    ensures
        first_tag_in(s, j, bare) is None,
    decreases 11 - j,
{
    if j < 11 {
        lemma_first_tag_none(s, j + 1, bare);
    }
}

/// `first_tag_in` from `j` finds the name of tag `i` when it occurs and no
/// name between `j` and `i` does.
proof fn lemma_first_name_skip(s: Seq<char>, j: nat, i: nat)
    requires
        j <= i < 11,
        forall|k: int| j <= k < i ==> !contains(s, bracket_inner(#[trigger] emotion_tags()[k])),
        contains(s, bracket_inner(emotion_tags()[i as int])),
    ensures
        first_tag_in(s, j, true) == Some(i),
    decreases i - j,
{
    if j < i {
        lemma_first_name_skip(s, j + 1, i);
    }
}

/// **Law.** How a lower-cased reply `s` is read, over all replies:
/// - a reply that contains the bracketed tag `i`, and no bracketed tag
///   listed before it, is read as tag `i`;
/// - a reply that contains no bracketed tag at all, contains the name of
///   tag `i` without its brackets (such as `laughing`), and no name listed
///   before it, is read as tag `i`;
/// - a reply that contains neither any bracketed tag nor any name is read
///   as `[neutral]`.
pub proof fn reply_reading(s: Seq<char>, i: int)
    requires
        0 <= i < 11,
    ensures
        contains(s, emotion_tags()[i]) && (forall|k: int|
            0 <= k < i ==> !contains(s, #[trigger] emotion_tags()[k])) ==> emotion_tag_for(s)
            == emotion_tags()[i],
        (forall|k: int| 0 <= k < 11 ==> !contains(s, #[trigger] emotion_tags()[k])) && contains(
            s,
            bracket_inner(emotion_tags()[i]),
        ) && (forall|k: int|
            0 <= k < i ==> !contains(s, bracket_inner(#[trigger] emotion_tags()[k])))
            ==> emotion_tag_for(s) == emotion_tags()[i],
        (forall|k: int| 0 <= k < 11 ==> !contains(s, #[trigger] emotion_tags()[k])) && (forall|
            k: int,
        | 0 <= k < 11 ==> !contains(s, bracket_inner(#[trigger] emotion_tags()[k])))
            ==> emotion_tag_for(s) == "[neutral]"@,
{
    if contains(s, emotion_tags()[i]) && (forall|k: int|
        0 <= k < i ==> !contains(s, #[trigger] emotion_tags()[k])) {
        lemma_first_tag_skip(s, 0, i as nat);
    }
    if forall|k: int| 0 <= k < 11 ==> !contains(s, #[trigger] emotion_tags()[k]) {
        lemma_first_tag_none(s, 0, false);
        if contains(s, bracket_inner(emotion_tags()[i])) && (forall|k: int|
            0 <= k < i ==> !contains(s, bracket_inner(#[trigger] emotion_tags()[k]))) {
            lemma_first_name_skip(s, 0, i as nat);
        }
        if forall|k: int| 0 <= k < 11 ==> !contains(s, bracket_inner(#[trigger] emotion_tags()[k])) {
            lemma_first_tag_none(s, 0, true);
        }
    }
}

/// The tag text of index `i`.
pub fn emotion_tag(i: usize) -> (t: &'static str)
    requires
        i < NUM_EMOTION_TAGS,
    ensures
        t@ == emotion_tags()[i as int],
{
    match i {
        0 => "[neutral]",
        1 => "[excited]",
        2 => "[angry]",
        3 => "[sad]",
        4 => "[whisper]",
        5 => "[laughing]",
        6 => "[serious]",
        7 => "[sarcastic]",
        8 => "[fearful]",
        9 => "[tender]",
        _ => "[professional broadcast tone]",
    }
}

/// The first tag from index 0 that occurs in `s`.
fn first_tag_exec(s: &Vec<char>, bare: bool) -> (r: Option<usize>)
    ensures
        r matches Some(i) ==> i < NUM_EMOTION_TAGS && first_tag_in(s@, 0, bare) == Some(i as nat),
        r is None ==> first_tag_in(s@, 0, bare) is None,
{
    let mut i: usize = 0;
    proof {
        lemma_tags_shape();
        assert forall|k: int| 0 <= k < 11 implies (#[trigger] emotion_tags()[k]).len() >= 2 by {
            assert(bracketed(emotion_tags()[k]));
        }
    }
    while i < NUM_EMOTION_TAGS
        invariant
            i <= NUM_EMOTION_TAGS,
            first_tag_in(s@, 0, bare) == first_tag_in(s@, i as nat, bare),
            forall|k: int| 0 <= k < 11 ==> (#[trigger] emotion_tags()[k]).len() >= 2,
        decreases NUM_EMOTION_TAGS - i,
    {
        let tag = chars_of(emotion_tag(i));
        let pat = if bare {
            copy_range(&tag, 1, tag.len() - 1)
        } else {
            tag
        };
        if find_exec(s, &pat).is_some() {
            return Some(i);
        }
        i = i + 1;
    }
    None
}

/// The tag read from an already lower-cased reply.
pub fn emotion_tag_of_lowered(lowered: &str) -> (r: String)
    ensures
        r@ == emotion_tag_for(lowered@),
        emotion_tags().contains(r@),
{
    let s = chars_of(lowered);
    let r = match first_tag_exec(&s, false) {
        Some(i) => String::from_str(emotion_tag(i)),
        None => match first_tag_exec(&s, true) {
            Some(i) => String::from_str(emotion_tag(i)),
            None => String::from_str(emotion_tag(0)),
        },
    };
    proof {
        let spec_r = emotion_tag_for(lowered@);
        match first_tag_in(lowered@, 0, false) {
            Some(i) => {
                assert(emotion_tags()[i as int] == spec_r);
            },
            None => match first_tag_in(lowered@, 0, true) {
                Some(i) => {
                    assert(emotion_tags()[i as int] == spec_r);
                },
                None => {
                    assert(emotion_tags()[0] == spec_r);
                },
            },
        }
    }
    r
}

/// The emotion tag of a language-model reply: the reply is trimmed and
/// lower-cased, then read by `emotion_tag_for`.
pub fn parse_emotion_tag(response: &str) -> (r: String)
    ensures
        r@ == emotion_tag_for(lowercase(trim(response@))),
        is_ascii_text(trim(response@)) ==> r@ == emotion_tag_for(ascii_lowered(trim(response@))),
        emotion_tags().contains(r@),
{
    let trimmed = string_of(&trim_chars(&chars_of(response)));
    let lowered = to_lowercase_text(trimmed.as_str());
    emotion_tag_of_lowered(lowered.as_str())
}

/// The first line of a text, as `text.lines().next().unwrap_or("")`.
pub fn first_line_of(text: &str) -> (r: String)
    ensures
        r@ == first_line(text@),
{
    let ls = split_lines(&chars_of(text));
    if ls.len() > 0 {
        assert(views(ls@)[0] == ls@[0]@);
        string_of(&ls[0])
    } else {
        String::new()
    }
}

/// What the model is shown for one subtitle: the first lines of the
/// previous, current and next subtitles.
pub struct EmotionContext {
    pub prev: String,
    pub text: String,
    pub next: String,
}

/// The first line of subtitle `i`, or nothing outside the list.
pub open spec fn line_at(subs: Seq<SrtSentenceWithStrTime>, i: int) -> Seq<char> {
    if 0 <= i < subs.len() {
        first_line(subs[i].text@)
    } else {
        seq![]
    }
}

/// **Law.** Every subtitle's own line is its first line; before the first
/// subtitle and after the last there is no line, so the first subtitle has
/// no previous context and the last no next one.
pub proof fn lines_around_subtitles(subs: Seq<SrtSentenceWithStrTime>, i: int)
    ensures
        0 <= i < subs.len() ==> line_at(subs, i) == first_line(subs[i].text@),
        line_at(subs, -1).len() == 0,
        line_at(subs, subs.len() as int).len() == 0,
{
}

/// The context of every subtitle, in order.
pub fn emotion_contexts(subtitles: &Vec<SrtSentenceWithStrTime>) -> (r: Vec<EmotionContext>)
    ensures
        r.len() == subtitles.len(),
        forall|i: int|
            0 <= i < r.len() ==> {
                &&& (#[trigger] r[i]).text@ == line_at(subtitles@, i)
                &&& r[i].prev@ == line_at(subtitles@, i - 1)
                &&& r[i].next@ == line_at(subtitles@, i + 1)
            },
{
    let mut texts: Vec<String> = Vec::new();
    let mut i: usize = 0;
    while i < subtitles.len()
        invariant
            i <= subtitles.len(),
            texts.len() == i,
            forall|k: int| 0 <= k < i ==> (#[trigger] texts[k])@ == line_at(subtitles@, k),
        decreases subtitles.len() - i,
    {
        texts.push(first_line_of(subtitles[i].text.as_str()));
        i = i + 1;
    }
    let mut r: Vec<EmotionContext> = Vec::new();
    let mut i: usize = 0;
    while i < texts.len()
        invariant
            i <= texts.len(),
            texts.len() == subtitles.len(),
            r.len() == i,
            forall|k: int| 0 <= k < texts.len() ==> (#[trigger] texts[k])@ == line_at(subtitles@, k),
            forall|k: int|
                0 <= k < i ==> {
                    &&& (#[trigger] r[k]).text@ == line_at(subtitles@, k)
                    &&& r[k].prev@ == line_at(subtitles@, k - 1)
                    &&& r[k].next@ == line_at(subtitles@, k + 1)
                },
        decreases texts.len() - i,
    {
        let prev = if i > 0 {
            texts[i - 1].clone()
        } else {
            String::new()
        };
        let next = if i + 1 < texts.len() {
            texts[i + 1].clone()
        } else {
            String::new()
        };
        r.push(EmotionContext { prev, text: texts[i].clone(), next });
        i = i + 1;
    }
    r
}

/// The prompt for one subtitle: `{prev}`, `{text}` and `{next}` in the
/// template replaced, in that order, by the context lines.
pub open spec fn emotion_prompt_text(
    template: Seq<char>,
    prev: Seq<char>,
    text: Seq<char>,
    next: Seq<char>,
) -> Seq<char> {
    replace_all(
        replace_all(replace_all(template, "{prev}"@, prev), "{text}"@, text),
        "{next}"@,
        next,
    )
}

/// Fills an emotion prompt template with a subtitle's context.
pub fn emotion_prompt(template: &str, ctx: &EmotionContext) -> (r: String)
    ensures
        r@ == emotion_prompt_text(template@, ctx.prev@, ctx.text@, ctx.next@),
{
    proof {
        reveal_strlit("{prev}");
        reveal_strlit("{text}");
        reveal_strlit("{next}");
    }
    let t0 = chars_of(template);
    let t1 = replace_all_exec(&t0, &chars_of("{prev}"), &chars_of(ctx.prev.as_str()));
    let t2 = replace_all_exec(&t1, &chars_of("{text}"), &chars_of(ctx.text.as_str()));
    let t3 = replace_all_exec(&t2, &chars_of("{next}"), &chars_of(ctx.next.as_str()));
    string_of(&t3)
}

/// The tag for a subtitle from the model's reply; a failed request
/// gives `[neutral]`.
pub fn emotion_from_reply(reply: Option<&str>) -> (r: String)
    ensures
        reply matches Some(s) ==> r@ == emotion_tag_for(lowercase(trim(s@))),
        reply matches Some(s) ==> (is_ascii_text(trim(s@)) ==> r@ == emotion_tag_for(
            ascii_lowered(trim(s@)),
        )),
        reply is None ==> r@ == emotion_tags()[0],
{
    match reply {
        Some(s) => parse_emotion_tag(s),
        None => String::from_str(emotion_tag(0)),
    }
}

/// The tags found, as (subtitle position, tag) texts.
pub open spec fn tagged_view(v: Seq<(usize, String)>) -> Seq<(int, Seq<char>)> {
    v.map_values(|p: (usize, String)| (p.0 as int, p.1@))
}

/// The tag of subtitle `k`: the last one found for it, `[neutral]` when
/// none was.
pub open spec fn tag_of(tagged: Seq<(int, Seq<char>)>, k: int) -> Seq<char>
    decreases tagged.len(),
{
    if tagged.len() == 0 {
        emotion_tags()[0]
    } else if tagged.last().0 == k {
        tagged.last().1
    } else {
        tag_of(tagged.drop_last(), k)
    }
}

/// **Law.** The tag of subtitle `k` is `[neutral]` when no tag was found
/// for it, and otherwise the tag found for it last: the one of an entry for
/// `k` that no later entry for `k` follows.
pub proof fn subtitle_tag_is_last_found(tagged: Seq<(int, Seq<char>)>, k: int, i: int)
    ensures
        (forall|j: int| 0 <= j < tagged.len() ==> (#[trigger] tagged[j]).0 != k) ==> tag_of(
            tagged,
            k,
        ) == "[neutral]"@,
        0 <= i < tagged.len() && tagged[i].0 == k && (forall|j: int|
            i < j < tagged.len() ==> (#[trigger] tagged[j]).0 != k) ==> tag_of(tagged, k)
            == tagged[i].1,
    decreases tagged.len(),
{
    if tagged.len() > 0 {
        let init = tagged.drop_last();
        assert forall|j: int| 0 <= j < init.len() implies init[j] == tagged[j] by {}
        subtitle_tag_is_last_found(init, k, i);
        if (forall|j: int| 0 <= j < tagged.len() ==> (#[trigger] tagged[j]).0 != k) {
            assert(tagged.last() == tagged[tagged.len() - 1]);
            assert forall|j: int| 0 <= j < init.len() implies (#[trigger] init[j]).0 != k by {
                assert(init[j] == tagged[j]);
            }
        }
        if 0 <= i < tagged.len() && tagged[i].0 == k && (forall|j: int|
            i < j < tagged.len() ==> (#[trigger] tagged[j]).0 != k) {
            if i < tagged.len() - 1 {
                assert(tagged.last() == tagged[tagged.len() - 1]);
                assert(init[i] == tagged[i]);
                assert forall|j: int| i < j < init.len() implies (#[trigger] init[j]).0 != k by {
                    assert(init[j] == tagged[j]);
                }
            }
        }
    } else {
        reveal_strlit("[neutral]");
    }
}

/// One tag per subtitle: `[neutral]` unless a tag was found for it.
pub fn assemble_emotions(count: usize, tagged: &Vec<(usize, String)>) -> (r: Vec<String>)
    requires
        forall|i: int| 0 <= i < tagged.len() ==> (#[trigger] tagged@[i]).0 < count,
    ensures
        r.len() == count,
        forall|k: int| 0 <= k < count ==> (#[trigger] r@[k])@ == tag_of(tagged_view(tagged@), k),
{
    let mut r: Vec<String> = Vec::new();
    let mut k: usize = 0;
    while k < count
        invariant
            k <= count,
            r.len() == k,
            forall|m: int| 0 <= m < k ==> (#[trigger] r@[m])@ == emotion_tags()[0],
        decreases count - k,
    {
        r.push(String::from_str(emotion_tag(0)));
        k = k + 1;
    }
    let mut i: usize = 0;
    while i < tagged.len()
        invariant
            i <= tagged.len(),
            r.len() == count,
            forall|j: int| 0 <= j < tagged.len() ==> (#[trigger] tagged@[j]).0 < count,
            forall|m: int|
                0 <= m < count ==> (#[trigger] r@[m])@ == tag_of(
                    tagged_view(tagged@).take(i as int),
                    m,
                ),
        decreases tagged.len() - i,
    {
        let pos = tagged[i].0;
        let tag = tagged[i].1.clone();
        r.set(pos, tag);
        proof {
            let tv = tagged_view(tagged@).take(i + 1);
            assert(tv.drop_last() =~= tagged_view(tagged@).take(i as int));
            assert(tv.last() == (pos as int, tagged@[i as int].1@));
        }
        i = i + 1;
    }
    assert(tagged_view(tagged@).take(tagged.len() as int) =~= tagged_view(tagged@));
    r
}

} // verus!
