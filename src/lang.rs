//! Human-readable labels from hyphenated names.

use vstd::prelude::*;
use crate::text::{chars_of, push_char, push_chars};

verus! {

/// What `char::to_uppercase` yields for `c`.
pub uninterp spec fn upper_of(c: char) -> Seq<char>;

/// The ASCII uppercase of `c`: `a` to `z` become `A` to `Z`, every other
/// character stays.
pub open spec fn ascii_upper(c: char) -> char {
    if 'a' <= c <= 'z' {
        ((c as u32 - 32) as u8) as char
    } else {
        c
    }
}

/// Every character of `s` is ASCII.
pub open spec fn is_ascii_text(s: Seq<char>) -> bool {
    forall|i: int| 0 <= i < s.len() ==> (#[trigger] s[i]) as u32 <= 127
}

/// Uppercasing as `char::to_uppercase` does it.
pub open spec fn unicode_upper() -> spec_fn(char) -> Seq<char> {
    |c: char| upper_of(c)
}

/// Uppercasing of ASCII letters alone.
pub open spec fn ascii_only_upper() -> spec_fn(char) -> Seq<char> {
    |c: char| seq![ascii_upper(c)]
}

/// Relies on `char::to_uppercase`: the uppercase mapping of `c`, which for
/// an ASCII character is that of `char::to_ascii_uppercase`.
#[verifier::external_body]
fn uppercase(c: char) -> (r: String)
    ensures
        r@ == upper_of(c),
        (c as u32) <= 127 ==> r@ == seq![ascii_upper(c)],
{
    c.to_uppercase().collect::<String>()
}

/// The segments of `s` between hyphens, empty ones included.
pub open spec fn segments(s: Seq<char>) -> Seq<Seq<char>>
    decreases s.len(),
{
    if s.len() == 0 {
        seq![Seq::empty()]
    } else {
        let init = segments(s.drop_last());
        if s.last() == '-' {
            init.push(Seq::empty())
        } else {
            init.update(init.len() - 1, init.last().push(s.last()))
        }
    }
}

/// A segment with its first character uppercased by `up`.
pub open spec fn capitalized(w: Seq<char>, up: spec_fn(char) -> Seq<char>) -> Seq<char> {
    if w.len() == 0 {
        w
    } else {
        up(w[0]) + w.drop_first()
    }
}

/// The non-empty segments of `ws`, capitalized and joined by single spaces.
pub open spec fn joined_words(ws: Seq<Seq<char>>, up: spec_fn(char) -> Seq<char>) -> Seq<char>
    decreases ws.len(),
{
    if ws.len() == 0 {
        Seq::empty()
    } else {
        let pre = joined_words(ws.drop_last(), up);
        let w = ws.last();
        if w.len() == 0 {
            pre
        } else if pre.len() == 0 {
            capitalized(w, up)
        } else {
            pre.push(' ') + capitalized(w, up)
        }
    }
}

/// The display label of a hyphenated name.
pub open spec fn english(s: Seq<char>) -> Seq<char> {
    joined_words(segments(s), unicode_upper())
}

/// The display label of a hyphenated name written in ASCII.
pub open spec fn english_ascii(s: Seq<char>) -> Seq<char> {
    joined_words(segments(s), ascii_only_upper())
}

proof fn lemma_segments_ascii(s: Seq<char>)
    requires
        is_ascii_text(s),
    ensures
        forall|i: int, j: int|
            0 <= i < segments(s).len() && 0 <= j < segments(s)[i].len() ==> (
            #[trigger] segments(s)[i][j]) as u32 <= 127,
        segments(s).len() >= 1,
    decreases s.len(),
{
    if s.len() > 0 {
        let init = s.drop_last();
        assert(is_ascii_text(init)) by {
            assert forall|i: int| 0 <= i < init.len() implies (#[trigger] init[i]) as u32 <= 127 by {
                assert(init[i] == s[i]);
            }
        }
        lemma_segments_ascii(init);
        assert(s.last() == s[s.len() - 1]);
    }
}

/// The character sequences held by a list of character vectors.
pub open spec fn views(v: Seq<Vec<char>>) -> Seq<Seq<char>> {
    v.map_values(|w: Vec<char>| w@)
}

fn split_hyphens(cs: &Vec<char>) -> (r: Vec<Vec<char>>)
    ensures
        views(r@) == segments(cs@),
{
    let mut done: Vec<Vec<char>> = Vec::new();
    let mut cur: Vec<char> = Vec::new();
    let mut i: usize = 0;
    while i < cs.len()
        invariant
            i <= cs@.len(),
            views(done@).push(cur@) == segments(cs@.subrange(0, i as int)),
        decreases cs@.len() - i,
    {
        let ghost before = views(done@).push(cur@);
        assert(cs@.subrange(0, i + 1).drop_last() == cs@.subrange(0, i as int));
        if cs[i] == '-' {
            let ghost pre = done@;
            let seg = cur;
            done.push(seg);
            assert(views(done@) =~= views(pre).push(seg@));
            cur = Vec::new();
            assert(views(done@).push(cur@) =~= before.push(Seq::empty()));
        } else {
            cur.push(cs[i]);
            assert(views(done@).push(cur@) =~= before.update(
                before.len() - 1,
                before.last().push(cs@[i as int]),
            ));
        }
        i = i + 1;
    }
    assert(cs@.subrange(0, cs@.len() as int) == cs@);
    let ghost pre = done@;
    done.push(cur);
    assert(views(done@) =~= views(pre).push(cur@));
    done
}

/// Turns a hyphenated name into a label: each segment starts with an upper
/// case character, segments are joined by one space, empty ones are skipped.
pub fn kebab_to_english(value: &str) -> (r: String)
    ensures
        r@ == english(value@),
        is_ascii_text(value@) ==> r@ == english_ascii(value@),
{
    let cs = chars_of(value);
    let words = split_hyphens(&cs);
    proof {
        if is_ascii_text(value@) {
            lemma_segments_ascii(value@);
        }
    }
    let mut out = String::new();
    let mut i: usize = 0;
    while i < words.len()
        invariant
            i <= words@.len(),
            views(words@) == segments(value@),
            out@ == joined_words(views(words@).subrange(0, i as int), unicode_upper()),
            is_ascii_text(value@) ==> out@ == joined_words(
                views(words@).subrange(0, i as int),
                ascii_only_upper(),
            ),
            is_ascii_text(value@) ==> forall|a: int, b: int|
                0 <= a < segments(value@).len() && 0 <= b < segments(value@)[a].len() ==> (
                #[trigger] segments(value@)[a][b]) as u32 <= 127,
        decreases words@.len() - i,
    {
        let ghost ws = views(words@);
        assert(ws.subrange(0, i + 1).drop_last() == ws.subrange(0, i as int));
        assert(ws.subrange(0, i + 1).last() == words[i as int]@);
        let w = &words[i];
        if w.len() > 0 {
            if out.as_str().unicode_len() > 0 {
                push_char(&mut out, ' ');
            }
            let up = uppercase(w[0]);
            assert(is_ascii_text(value@) ==> ws[i as int][0] as u32 <= 127);
            push_chars(&mut out, chars_of(up.as_str()).as_slice());
            push_chars(&mut out, w.as_slice().split_at(1).1);
            assert(w@.drop_first() == w@.subrange(1, w@.len() as int));
        }
        i = i + 1;
    }
    assert(views(words@).subrange(0, words@.len() as int) == views(words@));
    out
}

} // verus!
