//! Page modules: escaped document content wrapped in a page template.

use vstd::prelude::*;
use crate::text::{chars_of, push_char};
use crate::template::{replaced, replace_all};

verus! {

/// How one character of a document is written inside a page module: a line
/// break keeps two trailing spaces before it, a backtick is escaped.
pub open spec fn escape_char(c: char) -> Seq<char> {
    if c == '\n' {
        seq![' ', ' ', '\n']
    } else if c == '`' {
        seq!['\\', '`']
    } else {
        seq![c]
    }
}

/// A document's text as embedded in its page module.
pub open spec fn escaped(s: Seq<char>) -> Seq<char>
    decreases s.len(),
{
    if s.len() == 0 {
        Seq::empty()
    } else {
        escaped(s.drop_last()) + escape_char(s.last())
    }
}

/// Reads embedded text back, from its end: a line break with its two spaces
/// and an escaped backtick each give back one character.
pub open spec fn unescaped(e: Seq<char>) -> Seq<char>
    decreases e.len(),
{
    if e.len() == 0 {
        Seq::empty()
    } else if e.len() >= 3 && e.last() == '\n' && e[e.len() - 2] == ' ' && e[e.len() - 3] == ' ' {
        unescaped(e.subrange(0, e.len() - 3)).push('\n')
    } else if e.len() >= 2 && e.last() == '`' && e[e.len() - 2] == '\\' {
        unescaped(e.subrange(0, e.len() - 2)).push('`')
    } else {
        unescaped(e.drop_last()).push(e.last())
    }
}

/// The decimal digit `d`.
pub open spec fn digit_char(d: nat) -> char {
    ((48 + d) as u8) as char
}

/// The decimal notation of `n`, without leading zeros.
pub open spec fn decimal(n: nat) -> Seq<char>
    decreases n,
{
    if n < 10 {
        seq![digit_char(n)]
    } else {
        decimal(n / 10).push(digit_char(n % 10))
    }
}

/// The name of the page module with identifier `id`: `Gen_<id>`.
pub open spec fn module_name(id: nat) -> Seq<char> {
    "Gen_"@ + decimal(id)
}

/// The page module of a document: the template with its title, file name
/// and escaped contents put in, in that order.
pub open spec fn page_text(
    page_template: Seq<char>,
    file_name: Seq<char>,
    contents: Seq<char>,
    id: nat,
) -> Seq<char> {
    replaced(
        replaced(replaced(page_template, "$title"@, module_name(id)), "$file_name"@, file_name),
        "$contents"@,
        escaped(contents),
    )
}

/// Escapes a document's text for embedding in a page module.
pub fn escape_content(contents: &str) -> (r: String)
    ensures
        r@ == escaped(contents@),
{
    let cs = chars_of(contents);
    let mut out = String::new();
    let mut i: usize = 0;
    while i < cs.len()
        invariant
            cs@ == contents@,
            i <= cs@.len(),
            out@ == escaped(cs@.subrange(0, i as int)),
        decreases cs@.len() - i,
    {
        let c = cs[i];
        if c == '\n' {
            push_char(&mut out, ' ');
            push_char(&mut out, ' ');
            push_char(&mut out, '\n');
        } else if c == '`' {
            push_char(&mut out, '\\');
            push_char(&mut out, '`');
        } else {
            push_char(&mut out, c);
        }
        assert(cs@.subrange(0, i + 1).drop_last() == cs@.subrange(0, i as int));
        i = i + 1;
    }
    assert(cs@.subrange(0, cs@.len() as int) == cs@);
    out
}

fn push_decimal(out: &mut String, n: usize)
    ensures
        final(out)@ == old(out)@ + decimal(n as nat),
    decreases n,
{
    if n >= 10 {
        push_decimal(out, n / 10);
    }
    let d: u8 = (n % 10) as u8;
    push_char(out, (48u8 + d) as char);
    assert(out@ == old(out)@ + decimal(n as nat));
}

/// The name of the page module with identifier `id`.
pub fn page_module_name(id: usize) -> (r: String)
    ensures
        r@ == module_name(id as nat),
{
    let mut out = String::from_str("Gen_");
    push_decimal(&mut out, id);
    out
}

/// Builds the page module of one document from the page template.
pub fn make_react_md_page(file_name: &str, contents: &str, id: usize, page_template: &str) -> (r:
    String)
    ensures
        r@ == page_text(page_template@, file_name@, contents@, id as nat),
{
    let name = page_module_name(id);
    let with_title = replace_all(page_template, "$title", name.as_str());
    let with_name = replace_all(with_title.as_str(), "$file_name", file_name);
    let body = escape_content(contents);
    replace_all(with_name.as_str(), "$contents", body.as_str())
}

/// Reading escaped text back gives the original document text.
pub proof fn lemma_escape_round_trip(t: Seq<char>)
    ensures
        unescaped(escaped(t)) == t,
    decreases t.len(),
{
    if t.len() > 0 {
        let init = t.drop_last();
        let c = t.last();
        let e = escaped(t);
        let pre = escaped(init);
        lemma_escape_round_trip(init);
        if c == '\n' {
            assert(e.subrange(0, e.len() - 3) == pre);
        } else if c == '`' {
            assert(e.subrange(0, e.len() - 2) == pre);
        } else {
            assert(e.drop_last() == pre);
        }
        assert(init.push(c) == t);
    }
}

/// In escaped text every backtick is preceded by a backslash, and every line
/// break by two spaces.
pub proof fn lemma_escaped_marks(t: Seq<char>)
    ensures
        forall|p: int|
            0 <= p < escaped(t).len() && #[trigger] escaped(t)[p] == '`' ==> p >= 1
                && escaped(t)[p - 1] == '\\',
        forall|p: int|
            0 <= p < escaped(t).len() && #[trigger] escaped(t)[p] == '\n' ==> p >= 2
                && escaped(t)[p - 1] == ' ' && escaped(t)[p - 2] == ' ',
    decreases t.len(),
{
    if t.len() > 0 {
        let init = t.drop_last();
        lemma_escaped_marks(init);
        let pre = escaped(init);
        let e = escaped(t);
        assert forall|p: int| 0 <= p < pre.len() implies e[p] == pre[p] by {}
    }
}

} // verus!
