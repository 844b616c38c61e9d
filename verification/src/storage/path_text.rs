//! Unix paths held as text: joining, absoluteness and component-wise equality, as
//! `std::path::Path` defines them.

use vstd::prelude::*;

use crate::text::{owned, push_char, push_str};

verus! {

/// A path is absolute when it starts at the root.
pub open spec fn is_absolute(p: Seq<char>) -> bool {
    p.len() > 0 && p[0] == '/'
}

/// `base.join(part)`: `part` when it is absolute; otherwise `part` appended to `base` with a
/// separator when `base` is non-empty and does not already end with one.
pub open spec fn join(base: Seq<char>, part: Seq<char>) -> Seq<char> {
    if is_absolute(part) {
        part
    } else if base.len() == 0 || base.last() == '/' {
        base + part
    } else {
        base + seq!['/'] + part
    }
}

pub fn path_is_absolute(p: &str) -> (b: bool)
    ensures
        b == is_absolute(p@),
{
    p.unicode_len() > 0 && p.get_char(0) == '/'
}

/// Joins a path with another, as `Path::join` does.
pub fn join_path(base: &str, part: &str) -> (r: String)
    ensures
        r@ == join(base@, part@),
{
    if path_is_absolute(part) {
        return owned(part);
    }
    let n = base.unicode_len();
    let mut r = owned(base);
    if n > 0 && base.get_char(n - 1) != '/' {
        push_char(&mut r, '/');
    }
    push_str(&mut r, part);
    assert(r@ =~= join(base@, part@));
    r
}

/// The pieces of `p` between separators.
pub open spec fn pieces(p: Seq<char>) -> Seq<Seq<char>>
    decreases p.len(),
{
    if p.len() == 0 {
        seq![Seq::empty()]
    } else {
        let before = pieces(p.drop_last());
        if p.last() == '/' {
            before.push(Seq::empty())
        } else {
            before.update(before.len() - 1, before.last().push(p.last()))
        }
    }
}

/// The named components of a path: pieces that are neither empty nor `.`.
pub open spec fn named_components(ps: Seq<Seq<char>>) -> Seq<Seq<char>>
    decreases ps.len(),
{
    if ps.len() == 0 {
        Seq::empty()
    } else {
        let rest = named_components(ps.drop_last());
        if ps.last().len() == 0 || ps.last() == seq!['.'] {
            rest
        } else {
            rest.push(ps.last())
        }
    }
}

/// What `Path` equality compares: the root, a leading `.` of a relative path, and the named
/// components.
pub open spec fn path_key(p: Seq<char>) -> (bool, bool, Seq<Seq<char>>) {
    (is_absolute(p), !is_absolute(p) && pieces(p)[0] == seq!['.'], named_components(pieces(p)))
}

/// Whether two paths are equal as `Path`s.
pub open spec fn same_path(a: Seq<char>, b: Seq<char>) -> bool {
    path_key(a) == path_key(b)
}

proof fn lemma_pieces_nonempty(p: Seq<char>)
    ensures
        pieces(p).len() >= 1,
    decreases p.len(),
{
    if p.len() > 0 {
        lemma_pieces_nonempty(p.drop_last());
    }
}

pub open spec fn vec_views(v: Seq<Vec<char>>) -> Seq<Seq<char>> {
    v.map_values(|x: Vec<char>| x@)
}

/// The pieces of a path between separators.
fn pieces_of(p: &str) -> (ps: Vec<Vec<char>>)
    ensures
        vec_views(ps@) == pieces(p@),
{
    let n = p.unicode_len();
    let mut ps: Vec<Vec<char>> = Vec::new();
    ps.push(Vec::new());
    let mut i: usize = 0;
    assert(p@.subrange(0, 0) =~= Seq::<char>::empty());
    assert(vec_views(ps@) =~= pieces(p@.subrange(0, 0)));
    while i < n
        invariant
            n == p@.len(),
            i <= n,
            vec_views(ps@) == pieces(p@.subrange(0, i as int)),
            ps@.len() >= 1,
        decreases n - i,
    {
        let c = p.get_char(i);
        let ghost pre = p@.subrange(0, i as int);
        let ghost post = p@.subrange(0, i + 1);
        assert(post.drop_last() =~= pre);
        let ghost before = ps@;
        if c == '/' {
            ps.push(Vec::new());
            assert(vec_views(ps@) =~= pieces(pre).push(Seq::empty()));
        } else {
            let mut last = ps.pop().unwrap();
            last.push(c);
            ps.push(last);
            assert(vec_views(ps@) =~= pieces(pre).update(
                pieces(pre).len() - 1,
                pieces(pre).last().push(c),
            ));
        }
        i = i + 1;
    }
    assert(p@.subrange(0, n as int) =~= p@);
    ps
}

fn is_dot(v: &Vec<char>) -> (b: bool)
    ensures
        b == (v@ == seq!['.']),
{
    if v.len() == 1 {
        if v[0] == '.' {
            assert(v@ =~= seq!['.']);
            true
        } else {
            assert(v@[0] != seq!['.'][0]);
            false
        }
    } else {
        assert(v@.len() != seq!['.'].len());
        false
    }
}

/// What `Path` equality compares, computed.
pub(crate) fn components_of(p: &str) -> (r: (bool, bool, Vec<Vec<char>>))
    ensures
        r.0 == path_key(p@).0,
        r.1 == path_key(p@).1,
        vec_views(r.2@) == path_key(p@).2,
{
    let ps = pieces_of(p);
    proof {
        lemma_pieces_nonempty(p@);
    }
    let is_abs = path_is_absolute(p);
    let leading_dot = !is_abs && is_dot(&ps[0]);
    let mut done: Vec<Vec<char>> = Vec::new();
    let mut k: usize = 0;
    assert(vec_views(ps@).subrange(0, 0) =~= Seq::<Seq<char>>::empty());
    while k < ps.len()
        invariant
            k <= ps@.len(),
            vec_views(done@) == named_components(vec_views(ps@).subrange(0, k as int)),
        decreases ps@.len() - k,
    {
        let piece = &ps[k];
        let ghost sub = vec_views(ps@).subrange(0, k + 1);
        assert(sub.drop_last() =~= vec_views(ps@).subrange(0, k as int));
        assert(sub.last() == piece@);
        if !(piece.len() == 0 || is_dot(piece)) {
            done.push(piece.clone());
            assert(vec_views(done@) =~= named_components(sub));
        }
        k = k + 1;
    }
    assert(vec_views(ps@).subrange(0, ps@.len() as int) =~= vec_views(ps@));
    (is_abs, leading_dot, done)
}

/// Whether two paths are equal as `Path`s (component by component).
#[verifier::loop_isolation(false)]
pub fn paths_equal(a: &str, b: &str) -> (r: bool)
    ensures
        r == same_path(a@, b@),
{
    let (a_abs, a_dot, a_parts) = components_of(a);
    let (b_abs, b_dot, b_parts) = components_of(b);
    if a_abs != b_abs || a_dot != b_dot || a_parts.len() != b_parts.len() {
        proof {
            if a_parts.len() != b_parts.len() {
                assert(vec_views(a_parts@).len() != vec_views(b_parts@).len());
            }
        }
        return false;
    }
    let ghost av = vec_views(a_parts@);
    let ghost bv = vec_views(b_parts@);
    let mut k: usize = 0;
    while k < a_parts.len()
        invariant
            a_parts@.len() == b_parts@.len(),
            k <= a_parts@.len(),
            av == vec_views(a_parts@),
            bv == vec_views(b_parts@),
            forall|q: int| 0 <= q < k ==> av[q] == bv[q],
        decreases a_parts@.len() - k,
    {
        let x = &a_parts[k];
        let y = &b_parts[k];
        assert(av[k as int] == x@);
        assert(bv[k as int] == y@);
        if x.len() != y.len() {
            assert(av[k as int].len() != bv[k as int].len());
            return false;
        }
        let mut q: usize = 0;
        while q < x.len()
            invariant
                x@.len() == y@.len(),
                q <= x@.len(),
                forall|t: int| 0 <= t < q ==> x@[t] == y@[t],
            decreases x@.len() - q,
        {
            if x[q] != y[q] {
                assert(av[k as int][q as int] != bv[k as int][q as int]);
                return false;
            }
            q = q + 1;
        }
        assert(x@ =~= y@);
        k = k + 1;
    }
    assert(av =~= bv);
    true
}

} // verus!
