//! Dependency tokens of a module, and the union of the names they resolve to.
use vstd::prelude::*;
use crate::fields::{Separator, byte_seqs, split_at_sep, split_all, split_fields};

verus! {

/// `pre:`, the marker of a soft dependency loaded before the module.
pub open spec fn pre_marker() -> Seq<u8> {
    seq![112u8, 114u8, 101u8, 58u8]
}

/// `post:`, the marker of a soft dependency loaded after the module.
pub open spec fn post_marker() -> Seq<u8> {
    seq![112u8, 111u8, 115u8, 116u8, 58u8]
}

/// A whitespace-separated token of a soft-dependency line that names a
/// module: not empty, and not an ordering marker.
pub open spec fn is_soft_dep_name(t: Seq<u8>) -> bool {
    t.len() > 0 && t != pre_marker() && t != post_marker()
}

/// The tokens of `ts` that name modules, order kept.
pub open spec fn keep_soft_dep_names(ts: Seq<Seq<u8>>) -> Seq<Seq<u8>>
    decreases ts.len(),
{
    if ts.len() == 0 {
        ts
    } else if is_soft_dep_name(ts.last()) {
        keep_soft_dep_names(ts.drop_last()).push(ts.last())
    } else {
        keep_soft_dep_names(ts.drop_last())
    }
}

/// The module names of one soft-dependency line.
pub open spec fn soft_dep_line_names(line: Seq<u8>) -> Seq<Seq<u8>> {
    keep_soft_dep_names(split_at_sep(line, Separator::Whitespace))
}

/// The module names of all soft-dependency lines, in order.
pub open spec fn soft_dep_names(lines: Seq<Seq<u8>>) -> Seq<Seq<u8>>
    decreases lines.len(),
{
    if lines.len() == 0 {
        Seq::empty()
    } else {
        soft_dep_names(lines.drop_last()) + soft_dep_line_names(lines.last())
    }
}

/// The lines of an answer; an answer that did not come holds none.
pub open spec fn answer_lines(a: Option<Vec<Vec<u8>>>) -> Seq<Seq<u8>> {
    match a {
        Some(ls) => byte_seqs(ls@),
        None => Seq::empty(),
    }
}

/// The tokens naming the dependencies of a module: each `depends` line split
/// at commas, then the module names of each `softdep` line.
pub open spec fn dependency_token_seq(
    depends: Option<Vec<Vec<u8>>>,
    softdeps: Option<Vec<Vec<u8>>>,
) -> Seq<Seq<u8>> {
    split_all(answer_lines(depends), Separator::Comma) + soft_dep_names(answer_lines(softdeps))
}

/// All names of the answers that came, in order.
pub open spec fn answered_names(answers: Seq<Option<Vec<Vec<u8>>>>) -> Seq<Seq<u8>>
    decreases answers.len(),
{
    if answers.len() == 0 {
        Seq::empty()
    } else {
        answered_names(answers.drop_last()) + answer_lines(answers.last())
    }
}

/// Whether two byte strings are equal.
pub fn bytes_equal(a: &[u8], b: &[u8]) -> (r: bool)
    ensures
        r == (a@ == b@),
{
    if a.len() != b.len() {
        return false;
    }
    let mut i: usize = 0;
    while i < a.len()
        invariant
            a.len() == b.len(),
            i <= a.len(),
            forall|j: int| 0 <= j < i ==> a@[j] == b@[j],
        decreases a.len() - i,
    {
        if a[i] != b[i] {
            return false;
        }
        i += 1;
    }
    assert(a@ =~= b@);
    true
}

/// Whether `t` names a module, as opposed to an empty token or an ordering
/// marker.
pub fn soft_dep_is_name(t: &[u8]) -> (r: bool)
    ensures
        r == is_soft_dep_name(t@),
{
    let pre: [u8; 4] = [112u8, 114u8, 101u8, 58u8];
    let post: [u8; 5] = [112u8, 111u8, 115u8, 116u8, 58u8];
    assert(pre@ =~= pre_marker());
    assert(post@ =~= post_marker());
    t.len() > 0 && !bytes_equal(t, pre.as_slice()) && !bytes_equal(t, post.as_slice())
}

/// The module names of one soft-dependency line: its whitespace-separated
/// tokens, without the `pre:` and `post:` markers.
pub fn parse_soft_deps(line: &[u8]) -> (r: Vec<Vec<u8>>)
    ensures
        byte_seqs(r@) == soft_dep_line_names(line@),
{
    let tokens = split_fields(line, Separator::Whitespace);
    let ghost all = byte_seqs(tokens@);
    let mut names: Vec<Vec<u8>> = Vec::new();
    let mut i: usize = 0;
    while i < tokens.len()
        invariant
            i <= tokens.len(),
            all == byte_seqs(tokens@),
            all == split_at_sep(line@, Separator::Whitespace),
            byte_seqs(names@) == keep_soft_dep_names(all.subrange(0, i as int)),
        decreases tokens.len() - i,
    {
        proof {
            assert(all.subrange(0, i + 1).drop_last() =~= all.subrange(0, i as int));
        }
        if soft_dep_is_name(tokens[i].as_slice()) {
            names.push(tokens[i].clone());
            assert(byte_seqs(names@) =~= keep_soft_dep_names(all.subrange(0, i as int)).push(
                all[i as int],
            ));
        }
        i += 1;
    }
    assert(all.subrange(0, tokens.len() as int) =~= all);
    names
}

/// Appends copies of the elements of `src` to `dst`.
fn append_copies(dst: &mut Vec<Vec<u8>>, src: &Vec<Vec<u8>>)
    ensures
        byte_seqs(final(dst)@) == byte_seqs(old(dst)@) + byte_seqs(src@),
{
    let ghost start = byte_seqs(dst@);
    let mut i: usize = 0;
    while i < src.len()
        invariant
            i <= src.len(),
            byte_seqs(dst@) == start + byte_seqs(src@).subrange(0, i as int),
        decreases src.len() - i,
    {
        let ghost before = dst@;
        let c = src[i].clone();
        assert(c@ == src@[i as int]@);
        dst.push(c);
        assert(byte_seqs(dst@) =~= byte_seqs(before).push(byte_seqs(src@)[i as int]));
        assert(byte_seqs(dst@) =~= start + byte_seqs(src@).subrange(0, i + 1));
        i += 1;
    }
    assert(byte_seqs(src@).subrange(0, src.len() as int) =~= byte_seqs(src@));
}

/// The hard-dependency tokens of a module: each line split at commas,
/// empty tokens included.
pub fn mod_deps(lines: &Vec<Vec<u8>>) -> (r: Vec<Vec<u8>>)
    ensures
        byte_seqs(r@) == split_all(byte_seqs(lines@), Separator::Comma),
{
    let ghost ls = byte_seqs(lines@);
    let mut tokens: Vec<Vec<u8>> = Vec::new();
    let mut i: usize = 0;
    while i < lines.len()
        invariant
            i <= lines.len(),
            ls == byte_seqs(lines@),
            byte_seqs(tokens@) == split_all(ls.subrange(0, i as int), Separator::Comma),
        decreases lines.len() - i,
    {
        proof {
            assert(ls.subrange(0, i + 1).drop_last() =~= ls.subrange(0, i as int));
        }
        let parts = split_fields(lines[i].as_slice(), Separator::Comma);
        append_copies(&mut tokens, &parts);
        i += 1;
    }
    assert(ls.subrange(0, lines.len() as int) =~= ls);
    tokens
}

/// The soft-dependency names of a module: the names of each line, in order.
pub fn mod_soft_deps(lines: &Vec<Vec<u8>>) -> (r: Vec<Vec<u8>>)
    ensures
        byte_seqs(r@) == soft_dep_names(byte_seqs(lines@)),
{
    let ghost ls = byte_seqs(lines@);
    let mut tokens: Vec<Vec<u8>> = Vec::new();
    let mut i: usize = 0;
    while i < lines.len()
        invariant
            i <= lines.len(),
            ls == byte_seqs(lines@),
            byte_seqs(tokens@) == soft_dep_names(ls.subrange(0, i as int)),
        decreases lines.len() - i,
    {
        proof {
            assert(ls.subrange(0, i + 1).drop_last() =~= ls.subrange(0, i as int));
        }
        let names = parse_soft_deps(lines[i].as_slice());
        append_copies(&mut tokens, &names);
        i += 1;
    }
    assert(ls.subrange(0, lines.len() as int) =~= ls);
    tokens
}

/// The tokens naming the dependencies of a module, from the answers to its
/// `depends` and `softdep` queries; an answer that did not come contributes
/// nothing.
pub fn dependency_tokens(
    depends: &Option<Vec<Vec<u8>>>,
    softdeps: &Option<Vec<Vec<u8>>>,
) -> (r: Vec<Vec<u8>>)
    ensures
        byte_seqs(r@) == dependency_token_seq(*depends, *softdeps),
{
    let mut tokens: Vec<Vec<u8>> = match depends {
        Some(lines) => mod_deps(lines),
        None => {
            let v: Vec<Vec<u8>> = Vec::new();
            assert(byte_seqs(v@) =~= split_all(Seq::empty(), Separator::Comma));
            v
        },
    };
    let soft: Vec<Vec<u8>> = match softdeps {
        Some(lines) => mod_soft_deps(lines),
        None => {
            let v: Vec<Vec<u8>> = Vec::new();
            assert(byte_seqs(v@) =~= soft_dep_names(Seq::empty()));
            v
        },
    };
    append_copies(&mut tokens, &soft);
    tokens
}

/// Whether `name` is one of `names`.
pub fn holds_name(names: &Vec<Vec<u8>>, name: &[u8]) -> (r: bool)
    ensures
        r == byte_seqs(names@).contains(name@),
{
    let mut i: usize = 0;
    while i < names.len()
        invariant
            i <= names.len(),
            forall|j: int| 0 <= j < i ==> names@[j]@ != name@,
        decreases names.len() - i,
    {
        if bytes_equal(names[i].as_slice(), name) {
            assert(byte_seqs(names@)[i as int] == name@);
            return true;
        }
        i += 1;
    }
    assert forall|j: int| 0 <= j < names.len() implies byte_seqs(names@)[j] != name@ by {
        assert(names@[j]@ != name@);
    }
    false
}

/// Adds `name` to `names` unless it is there already.
fn insert_name(names: &mut Vec<Vec<u8>>, name: &Vec<u8>)
    requires
        byte_seqs(old(names)@).no_duplicates(),
    ensures
        byte_seqs(final(names)@).no_duplicates(),
        forall|v: Seq<u8>|
            #[trigger] byte_seqs(final(names)@).contains(v) <==> byte_seqs(old(names)@).contains(v)
                || v == name@,
{
    if !holds_name(names, name.as_slice()) {
        let ghost before = byte_seqs(names@);
        names.push(name.clone());
        assert(byte_seqs(names@) =~= before.push(name@));
        assert forall|i: int, j: int|
            0 <= i < j < before.push(name@).len() implies before.push(name@)[i] != before.push(
            name@,
        )[j] by {
            if j == before.len() {
                assert(before.push(name@)[i] == before[i]);
            }
        }
        assert forall|v: Seq<u8>| #[trigger] before.push(name@).contains(v) implies before.contains(v)
            || v == name@ by {
            let k = choose|k: int| 0 <= k < before.push(name@).len() && #[trigger] before.push(name@)[k] == v;
            if k < before.len() {
                assert(before[k] == v);
            }
        }
        assert forall|v: Seq<u8>| before.contains(v) implies #[trigger] before.push(name@).contains(v) by {
            let k = choose|k: int| 0 <= k < before.len() && #[trigger] before[k] == v;
            assert(before.push(name@)[k] == v);
        }
        assert(before.push(name@)[before.len() as int] == name@);
    }
}

/// The union of the names in the answers that came: every name once. An
/// answer that did not come contributes nothing.
pub fn union_names(answers: &Vec<Option<Vec<Vec<u8>>>>) -> (r: Vec<Vec<u8>>)
    ensures
        byte_seqs(r@).no_duplicates(),
        forall|v: Seq<u8>| #[trigger] byte_seqs(r@).contains(v) <==> answered_names(answers@).contains(v),
{
    let mut names: Vec<Vec<u8>> = Vec::new();
    let mut i: usize = 0;
    while i < answers.len()
        invariant
            i <= answers.len(),
            byte_seqs(names@).no_duplicates(),
            forall|v: Seq<u8>|
                #[trigger] byte_seqs(names@).contains(v) <==> answered_names(
                    answers@.subrange(0, i as int),
                ).contains(v),
        decreases answers.len() - i,
    {
        let ghost prev = answered_names(answers@.subrange(0, i as int));
        proof {
            assert(answers@.subrange(0, i + 1).drop_last() =~= answers@.subrange(0, i as int));
        }
        let ghost next = answered_names(answers@.subrange(0, i + 1));
        let ghost got = answer_lines(answers@[i as int]);
        assert(next == prev + got);
        if let Some(lines) = &answers[i] {
            let mut j: usize = 0;
            while j < lines.len()
                invariant
                    j <= lines.len(),
                    got == byte_seqs(lines@),
                    byte_seqs(names@).no_duplicates(),
                    forall|v: Seq<u8>|
                        #[trigger] byte_seqs(names@).contains(v) <==> (prev.contains(v)
                            || got.subrange(0, j as int).contains(v)),
                decreases lines.len() - j,
            {
                insert_name(&mut names, &lines[j]);
                assert forall|v: Seq<u8>| #[trigger]
                    got.subrange(0, j + 1).contains(v) <==> (got.subrange(0, j as int).contains(v)
                        || v == got[j as int]) by {
                    if got.subrange(0, j + 1).contains(v) {
                        let k = choose|k: int| 0 <= k < j + 1 && #[trigger] got.subrange(0, j + 1)[k] == v;
                        if k < j {
                            assert(got.subrange(0, j as int)[k] == v);
                        }
                    }
                    if got.subrange(0, j as int).contains(v) {
                        let k = choose|k: int| 0 <= k < j && #[trigger] got.subrange(0, j as int)[k] == v;
                        assert(got.subrange(0, j + 1)[k] == v);
                    }
                    if v == got[j as int] {
                        assert(got.subrange(0, j + 1)[j as int] == v);
                    }
                }
                j += 1;
            }
            assert(got.subrange(0, lines.len() as int) =~= got);
        }
        assert forall|v: Seq<u8>| #[trigger] next.contains(v) <==> (prev.contains(v) || got.contains(v)) by {
            if next.contains(v) {
                let k = choose|k: int| 0 <= k < next.len() && #[trigger] next[k] == v;
                if k < prev.len() {
                    assert(prev[k] == v);
                } else {
                    assert(got[k - prev.len()] == v);
                }
            }
            if prev.contains(v) {
                let k = choose|k: int| 0 <= k < prev.len() && #[trigger] prev[k] == v;
                assert(next[k] == v);
            }
            if got.contains(v) {
                let k = choose|k: int| 0 <= k < got.len() && #[trigger] got[k] == v;
                assert(next[prev.len() + k] == v);
            }
        }
        i += 1;
    }
    assert(answers@.subrange(0, answers.len() as int) =~= answers@);
    names
}

/// The union of the names that `tokens` resolve to. `resolve` is asked
/// once for each token, in order, and the second result holds its answers; a
/// token whose answer did not come contributes nothing.
pub fn resolve_tokens<R: Fn(&Vec<u8>) -> Option<Vec<Vec<u8>>>>(tokens: &Vec<Vec<u8>>, resolve: R) -> (r: (
    Vec<Vec<u8>>,
    Ghost<Seq<Option<Vec<Vec<u8>>>>>,
))
    requires
        forall|t: &Vec<u8>| resolve.requires((t,)),
    ensures
        r.1@.len() == tokens.len(),
        forall|i: int| 0 <= i < tokens.len() ==> resolve.ensures((&tokens@[i],), #[trigger] r.1@[i]),
        byte_seqs(r.0@).no_duplicates(),
        forall|v: Seq<u8>| #[trigger] byte_seqs(r.0@).contains(v) <==> answered_names(r.1@).contains(v),
{
    let mut answers: Vec<Option<Vec<Vec<u8>>>> = Vec::new();
    let mut i: usize = 0;
    while i < tokens.len()
        invariant
            forall|t: &Vec<u8>| resolve.requires((t,)),
            i <= tokens.len(),
            answers.len() == i,
            forall|j: int| 0 <= j < i ==> resolve.ensures((&tokens@[j],), #[trigger] answers@[j]),
        decreases tokens.len() - i,
    {
        let a = resolve(&tokens[i]);
        answers.push(a);
        i += 1;
    }
    let names = union_names(&answers);
    (names, Ghost(answers@))
}

/// The union of the names that the dependency tokens of a module resolve
/// to, the tokens read from the answers to its `depends` and `softdep`
/// queries. The second result holds the tokens and the answers of `resolve`
/// for them.
pub fn mod_resolved_deps<R: Fn(&Vec<u8>) -> Option<Vec<Vec<u8>>>>(
    depends: &Option<Vec<Vec<u8>>>,
    softdeps: &Option<Vec<Vec<u8>>>,
    resolve: R,
) -> (r: (Vec<Vec<u8>>, Ghost<(Seq<Vec<u8>>, Seq<Option<Vec<Vec<u8>>>>)>))
    requires
        forall|t: &Vec<u8>| resolve.requires((t,)),
    ensures
        byte_seqs(r.1@.0) == dependency_token_seq(*depends, *softdeps),
        r.1@.1.len() == r.1@.0.len(),
        forall|i: int| 0 <= i < r.1@.0.len() ==> resolve.ensures((&r.1@.0[i],), #[trigger] r.1@.1[i]),
        byte_seqs(r.0@).no_duplicates(),
        forall|v: Seq<u8>|
            #[trigger] byte_seqs(r.0@).contains(v) <==> answered_names(r.1@.1).contains(v),
{
    let tokens = dependency_tokens(depends, softdeps);
    let (names, answers) = resolve_tokens(&tokens, resolve);
    (names, Ghost((tokens@, answers@)))
}

/// An answer that did not come adds no name: the names of the answers are
/// those of the answers without it.
pub proof fn lemma_missing_answer_adds_nothing(answers: Seq<Option<Vec<Vec<u8>>>>, i: int)
    requires
        0 <= i < answers.len(),
        answers[i] is None,
    ensures
        answered_names(answers) == answered_names(answers.remove(i)),
    decreases answers.len(),
{
    if i == answers.len() - 1 {
        assert(answers.remove(i) =~= answers.drop_last());
        assert(answered_names(answers) =~= answered_names(answers.drop_last()));
    } else {
        lemma_missing_answer_adds_nothing(answers.drop_last(), i);
        assert(answers.remove(i).drop_last() =~= answers.drop_last().remove(i));
        assert(answers.remove(i).last() == answers.last());
    }
}

} // verus!
