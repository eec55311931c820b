//! The XML document as the writer produces it: text, with the `f32` values
//! kept as bit patterns (rendered with six decimals where the text is
//! finally assembled), and the text transformations of string properties.
use vstd::prelude::*;

use crate::text::chars_of;
use crate::text::is_space;
use crate::text::push_char;
use crate::text::push_str;
use crate::text::string_from_chars;

verus! {

/// A piece of the document: text, or an `f32` (by its bit pattern) that is
/// written with six decimals.
#[derive(Debug, Clone)]
pub enum XuiPiece {
    Text(String),
    Float(u32),
}

/// One element of a document: a character (by its code point), or an `f32`
/// written with six decimals.
pub enum Atom {
    Glyph(u32),
    Float(u32),
}

/// Text as atoms.
pub open spec fn txt(s: Seq<char>) -> Seq<Atom> {
    Seq::new(s.len(), |i: int| Atom::Glyph(s[i] as u32))
}

/// One float as atoms.
pub open spec fn fl(bits: u32) -> Seq<Atom> {
    seq![Atom::Float(bits)]
}

pub open spec fn piece_atoms(p: XuiPiece) -> Seq<Atom> {
    match p {
        XuiPiece::Text(s) => txt(s@),
        XuiPiece::Float(b) => fl(b),
    }
}

/// The atoms of a sequence of pieces, in order.
pub open spec fn atoms(ps: Seq<XuiPiece>) -> Seq<Atom>
    decreases ps.len(),
{
    if ps.len() == 0 {
        Seq::empty()
    } else {
        atoms(ps.drop_last()) + piece_atoms(ps.last())
    }
}

/// Appends text.
pub fn put_text(out: &mut Vec<XuiPiece>, s: String)
    ensures
        atoms(final(out)@) == atoms(old(out)@) + txt(s@),
{
    let ghost before = out@;
    out.push(XuiPiece::Text(s));
    assert(out@.drop_last() =~= before);
}

/// Appends text given as a string slice.
pub fn put_str(out: &mut Vec<XuiPiece>, s: &str)
    ensures
        atoms(final(out)@) == atoms(old(out)@) + txt(s@),
{
    let mut t = String::new();
    push_str(&mut t, s);
    assert(t@ =~= s@);
    put_text(out, t);
}

/// Appends a float.
pub fn put_float(out: &mut Vec<XuiPiece>, bits: u32)
    ensures
        atoms(final(out)@) == atoms(old(out)@) + fl(bits),
{
    let ghost before = out@;
    out.push(XuiPiece::Float(bits));
    assert(out@.drop_last() =~= before);
}

pub proof fn lemma_txt_add(a: Seq<char>, b: Seq<char>)
    ensures
        txt(a + b) == txt(a) + txt(b),
{
    let l = txt(a + b);
    let r = txt(a) + txt(b);
    assert(l.len() == r.len());
    assert forall|i: int| 0 <= i < l.len() implies l[i] == r[i] by {
        if i < a.len() {
            assert(l[i] == Atom::Glyph((a + b)[i] as u32));
            assert(r[i] == txt(a)[i]);
        } else {
            assert(l[i] == Atom::Glyph((a + b)[i] as u32));
            assert(r[i] == txt(b)[i - a.len()]);
        }
    }
    assert(l =~= r);
}

// ---------------------------------------------------------------------------
// Text of string properties
// ---------------------------------------------------------------------------

/// `s` without trailing whitespace.
pub open spec fn trim_end(s: Seq<char>) -> Seq<char>
    decreases s.len(),
{
    if s.len() > 0 && is_space(s.last()) {
        trim_end(s.drop_last())
    } else {
        s
    }
}

/// `s` without leading whitespace.
pub open spec fn trim_start(s: Seq<char>) -> Seq<char>
    decreases s.len(),
{
    if s.len() > 0 && is_space(s[0]) {
        trim_start(s.drop_first())
    } else {
        s
    }
}

/// `s` without leading and trailing whitespace.
pub open spec fn trim(s: Seq<char>) -> Seq<char> {
    trim_start(trim_end(s))
}

/// The lines of `s` from `i` on, the current line starting at `start`: split
/// at `'\n'`, where a final empty line (after a trailing newline) does not
/// count.
pub open spec fn lines_from(s: Seq<char>, start: int, i: int, acc: Seq<Seq<char>>) -> Seq<
    Seq<char>,
>
    decreases s.len() - i,
{
    if i >= s.len() {
        if start < s.len() {
            acc.push(s.subrange(start, s.len() as int))
        } else {
            acc
        }
    } else if s[i] == '\n' {
        lines_from(s, i + 1, i + 1, acc.push(s.subrange(start, i)))
    } else {
        lines_from(s, start, i + 1, acc)
    }
}

/// The lines of `s`.
pub open spec fn lines(s: Seq<char>) -> Seq<Seq<char>> {
    lines_from(s, 0, 0, Seq::empty())
}

/// The lines `ls` joined with `'\n'`.
pub open spec fn join_lines(ls: Seq<Seq<char>>) -> Seq<char>
    decreases ls.len(),
{
    if ls.len() == 0 {
        Seq::empty()
    } else if ls.len() == 1 {
        ls[0]
    } else {
        join_lines(ls.drop_last()) + "\n"@ + ls.last()
    }
}

/// The text of a string property: each line (a `'\r'` before its `'\n'`
/// included) without trailing whitespace, joined with `'\n'`, and a final
/// `'\n'` when the string ends with one.
pub open spec fn cleaned(s: Seq<char>) -> Seq<char> {
    let body = join_lines(lines(s).map_values(|l: Seq<char>| trim_end(l)));
    if s.len() > 0 && s.last() == '\n' {
        body + "\n"@
    } else {
        body
    }
}

/// The end of `cs[lo..hi]` without its trailing whitespace.
fn trimmed_end(cs: &Vec<char>, lo: usize, hi: usize) -> (k: usize)
    requires
        lo <= hi <= cs@.len(),
    ensures
        lo <= k <= hi,
        cs@.subrange(lo as int, k as int) == trim_end(cs@.subrange(lo as int, hi as int)),
{
    let mut k = hi;
    while k > lo && crate::text::char_is_whitespace(cs[k - 1])
        invariant
            lo <= k <= hi <= cs@.len(),
            trim_end(cs@.subrange(lo as int, k as int)) == trim_end(
                cs@.subrange(lo as int, hi as int),
            ),
        decreases k,
    {
        assert(cs@.subrange(lo as int, k as int).drop_last() =~= cs@.subrange(
            lo as int,
            k - 1,
        ));
        k = k - 1;
    }
    k
}

/// Removes leading and trailing whitespace.
pub fn trim_str(s: &str) -> (r: String)
    ensures
        r@ == trim(s@),
{
    let cs = chars_of(s);
    let hi = trimmed_end(&cs, 0, cs.len());
    assert(cs@.subrange(0, cs@.len() as int) =~= s@);
    let mut lo: usize = 0;
    while lo < hi && crate::text::char_is_whitespace(cs[lo])
        invariant
            lo <= hi <= cs@.len(),
            trim_start(cs@.subrange(lo as int, hi as int)) == trim(s@),
        decreases hi - lo,
    {
        assert(cs@.subrange(lo as int, hi as int).drop_first() =~= cs@.subrange(
            lo + 1,
            hi as int,
        ));
        lo = lo + 1;
    }
    string_from_chars(&cs, lo, hi)
}

proof fn lemma_join_push(ls: Seq<Seq<char>>, l: Seq<char>)
    ensures
        join_lines(ls.push(l)) == if ls.len() == 0 {
            l
        } else {
            join_lines(ls) + "\n"@ + l
        },
{
    assert(ls.push(l).drop_last() =~= ls);
}

/// Cleans the text of a string property (see `cleaned`).
pub fn clean_text(s: &str) -> (r: String)
    ensures
        r@ == cleaned(s@),
{
    let cs = chars_of(s);
    let n = cs.len();
    let ghost f = |l: Seq<char>| trim_end(l);
    let ghost mut acc: Seq<Seq<char>> = Seq::empty();
    let mut out = String::new();
    let mut start: usize = 0;
    let mut i: usize = 0;
    let mut any_line = false;
    assert(out@ =~= join_lines(acc.map_values(f)));
    while i < n
        invariant
            start <= i <= n,
            n == cs@.len(),
            cs@ == s@,
            lines(s@) == lines_from(s@, start as int, i as int, acc),
            out@ == join_lines(acc.map_values(f)),
            f == (|l: Seq<char>| trim_end(l)),
            any_line == (acc.len() > 0),
        decreases n - i,
    {
        if cs[i] == '\n' {
            let k = trimmed_end(&cs, start, i);
            let ghost line = cs@.subrange(start as int, i as int);
            proof {
                lemma_join_push(acc.map_values(f), trim_end(line));
                assert(acc.push(line).map_values(f) =~= acc.map_values(f).push(trim_end(line)));
            }
            if any_line {
                push_str(&mut out, "\n");
            }
            let t = string_from_chars(&cs, start, k);
            push_str(&mut out, t.as_str());
            proof {
                if acc.len() == 0 {
                    assert(out@ =~= trim_end(line));
                }
                acc = acc.push(line);
            }
            any_line = true;
            start = i + 1;
        }
        i = i + 1;
    }
    if start < n {
        let k = trimmed_end(&cs, start, n);
        let ghost line = cs@.subrange(start as int, n as int);
        proof {
            lemma_join_push(acc.map_values(f), trim_end(line));
            assert(acc.push(line).map_values(f) =~= acc.map_values(f).push(trim_end(line)));
        }
        if any_line {
            push_str(&mut out, "\n");
        }
        let t = string_from_chars(&cs, start, k);
        push_str(&mut out, t.as_str());
        proof {
            if acc.len() == 0 {
                assert(out@ =~= trim_end(line));
            }
            acc = acc.push(line);
        }
    }
    assert(out@ == join_lines(lines(s@).map_values(f)));
    if n > 0 && cs[n - 1] == '\n' {
        push_str(&mut out, "\n");
    }
    proof {
        assert(lines(s@).map_values(f) =~= lines(s@).map_values(|l: Seq<char>| trim_end(l)));
    }
    out
}

/// The entity that replaces `c` in text content, or `c` itself.
pub open spec fn escape_char(c: char) -> Seq<char> {
    if c == '<' {
        "&lt;"@
    } else if c == '>' {
        "&gt;"@
    } else if c == '&' {
        "&amp;"@
    } else if c == '\r' {
        "&#13;"@
    } else {
        seq![c]
    }
}

/// `s` with `<`, `>`, `&` and `'\r'` replaced by their entities.
pub open spec fn partially_escaped(s: Seq<char>) -> Seq<char>
    decreases s.len(),
{
    if s.len() == 0 {
        Seq::empty()
    } else {
        partially_escaped(s.drop_last()) + escape_char(s.last())
    }
}

/// `quick_xml::escape::partial_escape`, which replaces `<`, `>`, `&` and
/// `'\r'` by `&lt;`, `&gt;`, `&amp;` and `&#13;` and keeps every other
/// character; the contract states that table.
#[verifier::external_body]
fn partial_escape(s: &str) -> (r: String)
    ensures
        r@ == partially_escaped(s@),
{
    quick_xml::escape::partial_escape(s).into_owned()
}

/// The escaped, cleaned text of a string property.
pub fn property_text(s: &str) -> (r: String)
    ensures
        r@ == partially_escaped(cleaned(s@)),
{
    let clean = clean_text(s);
    partial_escape(clean.as_str())
}

/// Escaped text holds no `<`, `>` or `'\r'`: it cannot open or close an
/// element, and XML line-end normalization leaves it as it is.
pub proof fn lemma_escaped_has_no_markup(s: Seq<char>)
    ensures
        forall|i: int|
            0 <= i < partially_escaped(s).len() ==> {
                let c = #[trigger] partially_escaped(s)[i];
                c != '<' && c != '>' && c != '\r'
            },
    decreases s.len(),
{
    reveal_strlit("&lt;");
    reveal_strlit("&gt;");
    reveal_strlit("&amp;");
    reveal_strlit("&#13;");
    if s.len() > 0 {
        lemma_escaped_has_no_markup(s.drop_last());
        let pre = partially_escaped(s.drop_last());
        let e = escape_char(s.last());
        assert forall|i: int| 0 <= i < partially_escaped(s).len() implies {
            let c = #[trigger] partially_escaped(s)[i];
            c != '<' && c != '>' && c != '\r'
        } by {
            if i < pre.len() {
                assert(partially_escaped(s)[i] == pre[i]);
            } else {
                assert(partially_escaped(s)[i] == e[i - pre.len()]);
            }
        }
    }
}

} // verus!
