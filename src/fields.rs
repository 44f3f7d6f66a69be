//! Splitting raw oracle output into lines and tokens.
use vstd::prelude::*;

verus! {

/// The byte classes that separate fields in the oracle's output.
#[derive(Clone, Copy, Debug, PartialEq, Eq, Structural)]
pub enum Separator {
    /// `\n`: one value per line.
    Newline,
    /// `,`: the list of hard dependencies.
    Comma,
    /// ASCII whitespace: the list of soft dependencies.
    Whitespace,
}

pub open spec fn is_sep(sep: Separator, b: u8) -> bool {
    match sep {
        Separator::Newline => b == 10,
        Separator::Comma => b == 44,
        // the bytes that `u8::is_ascii_whitespace` accepts
        Separator::Whitespace => b == 32 || b == 9 || b == 10 || b == 12 || b == 13,
    }
}

/// The views of a sequence of byte vectors.
pub open spec fn byte_seqs(v: Seq<Vec<u8>>) -> Seq<Seq<u8>> {
    v.map_values(|l: Vec<u8>| l@)
}

/// The pieces of `s` between separators, empty pieces included; there is
/// always one more piece than separators.
pub open spec fn split_at_sep(s: Seq<u8>, sep: Separator) -> Seq<Seq<u8>>
    decreases s.len(),
{
    if s.len() == 0 {
        seq![Seq::empty()]
    } else {
        let p = split_at_sep(s.drop_last(), sep);
        if is_sep(sep, s.last()) {
            p.push(Seq::empty())
        } else {
            p.update(p.len() - 1, p.last().push(s.last()))
        }
    }
}

/// `ls` without its empty elements, order kept.
pub open spec fn drop_empty(ls: Seq<Seq<u8>>) -> Seq<Seq<u8>>
    decreases ls.len(),
{
    if ls.len() == 0 {
        ls
    } else if ls.last().len() == 0 {
        drop_empty(ls.drop_last())
    } else {
        drop_empty(ls.drop_last()).push(ls.last())
    }
}

/// The non-empty lines of `s`, in order.
pub open spec fn output_lines(s: Seq<u8>) -> Seq<Seq<u8>> {
    drop_empty(split_at_sep(s, Separator::Newline))
}

/// Each element of `ls` split at `sep`, the pieces concatenated in order.
pub open spec fn split_all(ls: Seq<Seq<u8>>, sep: Separator) -> Seq<Seq<u8>>
    decreases ls.len(),
{
    if ls.len() == 0 {
        Seq::empty()
    } else {
        split_all(ls.drop_last(), sep) + split_at_sep(ls.last(), sep)
    }
}

pub proof fn lemma_split_at_sep_nonempty(s: Seq<u8>, sep: Separator)
    ensures
        split_at_sep(s, sep).len() >= 1,
    decreases s.len(),
{
    if s.len() > 0 {
        lemma_split_at_sep_nonempty(s.drop_last(), sep);
    }
}

pub fn is_separator(sep: Separator, b: u8) -> (r: bool)
    ensures
        r == is_sep(sep, b),
{
    match sep {
        Separator::Newline => b == 10,
        Separator::Comma => b == 44,
        Separator::Whitespace => b == 32 || b == 9 || b == 10 || b == 12 || b == 13,
    }
}

/// Splits `s` at every separator byte, keeping empty pieces.
pub fn split_fields(s: &[u8], sep: Separator) -> (r: Vec<Vec<u8>>)
    ensures
        byte_seqs(r@) == split_at_sep(s@, sep),
{
    let mut pieces: Vec<Vec<u8>> = Vec::new();
    let mut cur: Vec<u8> = Vec::new();
    let mut i: usize = 0;
    while i < s.len()
        invariant
            i <= s.len(),
            byte_seqs(pieces@).push(cur@) == split_at_sep(s@.subrange(0, i as int), sep),
        decreases s.len() - i,
    {
        let b = s[i];
        let ghost before = split_at_sep(s@.subrange(0, i as int), sep);
        proof {
            assert(s@.subrange(0, i + 1).drop_last() =~= s@.subrange(0, i as int));
            lemma_split_at_sep_nonempty(s@.subrange(0, i as int), sep);
        }
        if is_separator(sep, b) {
            pieces.push(cur);
            cur = Vec::new();
            assert(byte_seqs(pieces@).push(cur@) =~= before.push(Seq::empty()));
        } else {
            cur.push(b);
            assert(byte_seqs(pieces@).push(cur@) =~= before.update(
                before.len() - 1,
                before.last().push(b),
            ));
        }
        i += 1;
    }
    assert(s@.subrange(0, s.len() as int) =~= s@);
    pieces.push(cur);
    assert(byte_seqs(pieces@) =~= split_at_sep(s@, sep));
    pieces
}

/// The non-empty lines of `s`, in order: the shape in which the oracle's
/// answers are read.
pub fn output_lines_of(s: &[u8]) -> (r: Vec<Vec<u8>>)
    ensures
        byte_seqs(r@) == output_lines(s@),
{
    let pieces = split_fields(s, Separator::Newline);
    let ghost all = byte_seqs(pieces@);
    let mut lines: Vec<Vec<u8>> = Vec::new();
    let mut i: usize = 0;
    while i < pieces.len()
        invariant
            i <= pieces.len(),
            all == byte_seqs(pieces@),
            byte_seqs(lines@) == drop_empty(all.subrange(0, i as int)),
        decreases pieces.len() - i,
    {
        proof {
            assert(all.subrange(0, i + 1).drop_last() =~= all.subrange(0, i as int));
        }
        if pieces[i].len() > 0 {
            lines.push(pieces[i].clone());
            assert(byte_seqs(lines@) =~= drop_empty(all.subrange(0, i as int)).push(all[i as int]));
        }
        i += 1;
    }
    assert(all.subrange(0, pieces.len() as int) =~= all);
    lines
}

} // verus!
