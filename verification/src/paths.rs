//! Unix paths as `std::path` reads them: split into components, compared
//! component by component, and joined.
//!
//! A path is modelled by its component list. The root is the component `/`,
//! a leading `.` of a relative path is the component `.`, `..` is itself, and
//! every other component is its name. Names never contain `/` and are never
//! `.` (those are dropped) or `..`, so this list determines `Path::components`
//! exactly, and two paths are equal (`Path == Path`) when their lists are.

use vstd::prelude::*;

use crate::text;
use crate::text::{append_seq, chars_of, find_vec, slice_vec, vec_eq, vec_eq_str};

verus! {

/// `s.split('/')`: the pieces between slashes, empty ones included.
pub open spec fn split_slash(s: Seq<char>) -> Seq<Seq<char>>
    decreases s.len(),
{
    let k = text::index_of(s, '/');
    if k < 0 || k >= s.len() {
        seq![s]
    } else {
        seq![s.subrange(0, k)] + split_slash(s.subrange(k + 1, s.len() as int))
    }
}

/// The pieces that are real components: not empty, not `.`.
pub open spec fn named_pieces(ps: Seq<Seq<char>>) -> Seq<Seq<char>>
    decreases ps.len(),
{
    if ps.len() == 0 {
        ps
    } else {
        let rest = named_pieces(ps.drop_last());
        if ps.last().len() == 0 || ps.last() == seq!['.'] {
            rest
        } else {
            rest.push(ps.last())
        }
    }
}

/// The root, or the `.` a relative path starts with, when there is one.
pub open spec fn components_head(s: Seq<char>) -> Seq<Seq<char>> {
    let pieces = split_slash(s);
    if s.len() > 0 && s[0] == '/' {
        seq![seq!['/']]
    } else if pieces.len() > 0 && pieces[0] == seq!['.'] {
        seq![seq!['.']]
    } else {
        seq![]
    }
}

/// `Path::components`, each component written as described above.
pub open spec fn components(s: Seq<char>) -> Seq<Seq<char>> {
    components_head(s) + named_pieces(split_slash(s))
}

/// `Path == Path`.
pub open spec fn same_path(a: Seq<char>, b: Seq<char>) -> bool {
    components(a) == components(b)
}

/// `Path::is_absolute` on Unix.
pub open spec fn is_absolute(s: Seq<char>) -> bool {
    s.len() > 0 && s[0] == '/'
}

/// `Path::join`: an absolute `rel` replaces `base`; otherwise a separator is
/// added unless `base` is empty or already ends in one.
pub open spec fn join(base: Seq<char>, rel: Seq<char>) -> Seq<char> {
    if is_absolute(rel) {
        rel
    } else if base.len() == 0 || base.last() == '/' {
        base + rel
    } else {
        base + seq!['/'] + rel
    }
}

/// A component that is a name (not the root, `.` or `..`).
pub open spec fn is_name(c: Seq<char>) -> bool {
    c != seq!['/'] && c != seq!['.'] && c != seq!['.', '.']
}

/// `Path::file_name`.
pub open spec fn file_name(s: Seq<char>) -> Option<Seq<char>> {
    let c = components(s);
    if c.len() > 0 && is_name(c.last()) {
        Some(c.last())
    } else {
        None
    }
}

/// Components joined with single slashes, the root written once in front.
pub open spec fn join_pieces(c: Seq<Seq<char>>) -> Seq<char>
    decreases c.len(),
{
    if c.len() == 0 {
        seq![]
    } else if c.len() == 1 {
        c[0]
    } else {
        join_pieces(c.drop_last()) + seq!['/'] + c.last()
    }
}

/// A path written out from its components.
pub open spec fn render(c: Seq<Seq<char>>) -> Seq<char> {
    if c.len() > 0 && c[0] == seq!['/'] {
        seq!['/'] + join_pieces(c.drop_first())
    } else {
        join_pieces(c)
    }
}

/// `s.split('/')`, as character vectors.
pub fn split_slash_vec(v: &Vec<char>) -> (r: Vec<Vec<char>>)
    ensures
        text::views(r@) == split_slash(v@),
{
    let mut out: Vec<Vec<char>> = Vec::new();
    let mut start: usize = 0;
    let slash: Vec<char> = vec!['/'];
    assert(v@.subrange(0, v.len() as int) =~= v@);
    loop
        invariant
            start <= v.len(),
            slash@ == seq!['/'],
            split_slash(v@) == text::views(out@) + split_slash(v@.subrange(start as int, v.len() as int)),
        decreases v.len() - start,
    {
        let rest = slice_vec(v, start, v.len());
        let found = find_vec(&rest, &slash);
        proof {
            text::lemma_find_facts(rest@, slash@);
        }
        match found {
            None => {
                let ghost before = text::views(out@);
                let ghost rv = rest@;
                out.push(rest);
                proof {
                    assert(text::views(out@) =~= before.push(rv));
                    assert(split_slash(rv) == seq![rv]);
                    assert(before + seq![rv] =~= before.push(rv));
                }
                return out;
            },
            Some(k) => {
                let piece = slice_vec(&rest, 0, k);
                let ghost before = text::views(out@);
                let ghost pv = piece@;
                proof {
                    assert(rest@.subrange(k + 1, rest.len() as int) =~= v@.subrange(
                        start + k + 1,
                        v.len() as int,
                    ));
                }
                out.push(piece);
                start = start + k + 1;
                proof {
                    assert(text::views(out@) =~= before.push(pv));
                    assert(split_slash(rest@) == seq![pv] + split_slash(
                        v@.subrange(start as int, v.len() as int),
                    ));
                    assert(before + (seq![pv] + split_slash(v@.subrange(start as int, v.len() as int)))
                        =~= before.push(pv) + split_slash(v@.subrange(start as int, v.len() as int)));
                }
            },
        }
    }
}

proof fn lemma_split_slash_nonempty(s: Seq<char>)
    ensures
        split_slash(s).len() > 0,
        s.len() > 0 && s[0] == '/' ==> split_slash(s)[0].len() == 0,
    decreases s.len(),
{
    let k = text::index_of(s, '/');
    text::lemma_find_facts(s, seq!['/']);
    if s.len() > 0 && s[0] == '/' {
        assert(s.subrange(0, s.len() as int).subrange(0, 1) =~= seq!['/']);
        assert(s.subrange(0, s.len() as int) =~= s);
        text::lemma_find_at(s, seq!['/'], 0);
    }
}

/// `Path::components`, as character vectors.
pub fn components_vec(v: &Vec<char>) -> (r: Vec<Vec<char>>)
    ensures
        text::views(r@) == components(v@),
{
    let pieces = split_slash_vec(v);
    proof {
        lemma_split_slash_nonempty(v@);
    }
    let mut out: Vec<Vec<char>> = Vec::new();
    proof {
        reveal_strlit(".");
        assert("."@ =~= seq!['.']);
        assert(text::views(pieces@)[0] == pieces@[0]@);
    }
    if v.len() > 0 && v[0] == '/' {
        let root: Vec<char> = vec!['/'];
        assert(root@ =~= seq!['/']);
        out.push(root);
        assert(text::views(out@) =~= components_head(v@));
    } else if pieces.len() > 0 && vec_eq_str(&pieces[0], ".") {
        let cur: Vec<char> = vec!['.'];
        assert(cur@ =~= seq!['.']);
        out.push(cur);
        assert(text::views(out@) =~= components_head(v@));
    } else {
        assert(text::views(out@) =~= components_head(v@));
    }
    let mut i: usize = 0;
    assert(text::views(pieces@).subrange(0, 0) =~= Seq::<Seq<char>>::empty());
    while i < pieces.len()
        invariant
            i <= pieces.len(),
            text::views(pieces@) == split_slash(v@),
            text::views(out@) == components_head(v@) + named_pieces(text::views(pieces@).subrange(0, i as int)),
        decreases pieces.len() - i,
    {
        let p = &pieces[i];
        let ghost pre = text::views(pieces@).subrange(0, i + 1);
        proof {
            assert(pre.drop_last() =~= text::views(pieces@).subrange(0, i as int));
            assert(pre.last() == pieces@[i as int]@);
        }
        let keep = !(p.len() == 0 || (p.len() == 1 && p[0] == '.'));
        proof {
            if p.len() == 1 && p[0] == '.' {
                assert(p@ =~= seq!['.']);
            }
            if p@ == seq!['.'] {
                assert(p.len() == 1 && p[0] == '.');
            }
        }
        if keep {
            let ghost before = text::views(out@);
            let c = slice_vec(p, 0, p.len());
            assert(c@ =~= p@);
            out.push(c);
            proof {
                assert(text::views(out@) =~= before.push(p@));
            }
        }
        i = i + 1;
    }
    assert(text::views(pieces@).subrange(0, pieces.len() as int) =~= text::views(pieces@));
    out
}

/// `a == b` for component lists.
pub fn components_eq(a: &Vec<Vec<char>>, b: &Vec<Vec<char>>) -> (r: bool)
    ensures
        r == (text::views(a@) == text::views(b@)),
{
    if a.len() != b.len() {
        assert(text::views(a@).len() != text::views(b@).len());
        return false;
    }
    let mut i: usize = 0;
    while i < a.len()
        invariant
            i <= a.len() == b.len(),
            forall|k: int| 0 <= k < i ==> text::views(a@)[k] == text::views(b@)[k],
        decreases a.len() - i,
    {
        if !vec_eq(&a[i], &b[i]) {
            assert(text::views(a@)[i as int] != text::views(b@)[i as int]);
            return false;
        }
        i = i + 1;
    }
    assert(text::views(a@) =~= text::views(b@));
    true
}

/// `Path::new(a) == Path::new(b)`.
pub fn same_path_vec(a: &Vec<char>, b: &Vec<char>) -> (r: bool)
    ensures
        r == same_path(a@, b@),
{
    let ca = components_vec(a);
    let cb = components_vec(b);
    components_eq(&ca, &cb)
}

/// `Path::new(base).join(rel)`, as characters.
pub fn join_vec(base: &Vec<char>, rel: &Vec<char>) -> (r: Vec<char>)
    ensures
        r@ == join(base@, rel@),
{
    if rel.len() > 0 && rel[0] == '/' {
        return slice_vec(rel, 0, rel.len());
    }
    let mut out = slice_vec(base, 0, base.len());
    if !(base.len() == 0 || base[base.len() - 1] == '/') {
        out.push('/');
    }
    append_seq(&mut out, rel);
    proof {
        if !(base.len() == 0 || base@.last() == '/') {
            assert(out@ =~= base@ + seq!['/'] + rel@);
        } else {
            assert(out@ =~= base@ + rel@);
        }
    }
    out
}

/// `Path::new(base).join(rel)` for a string piece.
pub fn join_str(base: &Vec<char>, rel: &str) -> (r: Vec<char>)
    ensures
        r@ == join(base@, rel@),
{
    join_vec(base, &chars_of(rel))
}

/// A path written out from its components.
pub fn render_vec(c: &Vec<Vec<char>>) -> (r: Vec<char>)
    ensures
        r@ == render(text::views(c@)),
{
    let rooted = c.len() > 0 && vec_eq_str(&c[0], "/");
    proof {
        reveal_strlit("/");
        assert("/"@ =~= seq!['/']);
        if c.len() > 0 {
            assert(text::views(c@)[0] == c@[0]@);
        }
    }
    let start: usize = if rooted {
        1
    } else {
        0
    };
    let mut out: Vec<char> = Vec::new();
    let ghost rest = text::views(c@).subrange(start as int, c.len() as int);
    let mut i = start;
    assert(rest.subrange(0, 0) =~= Seq::<Seq<char>>::empty());
    assert(rooted == (text::views(c@).len() > 0 && text::views(c@)[0] == seq!['/']));
    while i < c.len()
        invariant
            start <= i <= c.len(),
            rest == text::views(c@).subrange(start as int, c.len() as int),
            out@ == join_pieces(rest.subrange(0, i - start)),
        decreases c.len() - i,
    {
        let ghost pre = rest.subrange(0, i - start + 1);
        proof {
            assert(pre.drop_last() =~= rest.subrange(0, i - start));
            assert(pre.last() == c@[i as int]@);
        }
        if i > start {
            out.push('/');
        }
        append_seq(&mut out, &c[i]);
        proof {
            if i == start {
                assert(pre.len() == 1);
                assert(out@ =~= pre[0]);
            } else {
                assert(out@ =~= join_pieces(pre.drop_last()) + seq!['/'] + pre.last());
            }
        }
        i = i + 1;
    }
    assert(rest.subrange(0, c.len() - start) =~= rest);
    if rooted {
        let mut r: Vec<char> = vec!['/'];
        append_seq(&mut r, &out);
        proof {
            assert(rest =~= text::views(c@).drop_first());
            assert(r@ =~= seq!['/'] + join_pieces(rest));
        }
        r
    } else {
        assert(rest =~= text::views(c@));
        out
    }
}

} // verus!
