//! POSIX-style path helpers over character sequences. A path's components are
//! its `/`-separated segments, ignoring empty segments and `.` segments, as
//! `std::path::Path` normalizes them.
use vstd::prelude::*;
use crate::text::{split, split_str, strip_suffix, strip_suffix_str, views};

verus! {

/// Whether a `/`-separated segment is a real component.
pub open spec fn is_component(p: Seq<char>) -> bool {
    p.len() > 0 && p != seq!['.']
}

/// The components of a path, in order.
pub open spec fn components(s: Seq<char>) -> Seq<Seq<char>> {
    split(s, seq!['/']).filter(|p: Seq<char>| is_component(p))
}

/// `Path::file_name`: the last component, unless it is `..` or there is none.
pub open spec fn file_name(s: Seq<char>) -> Option<Seq<char>> {
    let c = components(s);
    if c.len() == 0 || c.last() == seq!['.', '.'] {
        None
    } else {
        Some(c.last())
    }
}

/// `path.parent()?.file_name()`: the second-to-last component, unless it is `..`.
pub open spec fn parent_name(s: Seq<char>) -> Option<Seq<char>> {
    let c = components(s);
    if c.len() < 2 || c[c.len() - 2] == seq!['.', '.'] {
        None
    } else {
        Some(c[c.len() - 2])
    }
}

/// The file name without a trailing `.md`.
pub open spec fn stem(s: Seq<char>) -> Option<Seq<char>> {
    match file_name(s) {
        Some(n) => Some(
            match strip_suffix(n, ".md"@) {
                Some(t) => t,
                None => n,
            },
        ),
        None => None,
    }
}

fn is_component_v(p: &Vec<char>) -> (r: bool)
    ensures
        r == is_component(p@),
{
    if p.len() == 0 {
        return false;
    }
    if p.len() == 1 && p[0] == '.' {
        assert(p@ =~= seq!['.']);
        return false;
    }
    if p.len() == 1 {
        assert(p@ != seq!['.']) by {
            assert(p@[0] != seq!['.'][0]);
        }
    }
    true
}

fn is_dotdot_v(p: &Vec<char>) -> (r: bool)
    ensures
        r == (p@ == seq!['.', '.']),
{
    if p.len() == 2 && p[0] == '.' && p[1] == '.' {
        assert(p@ =~= seq!['.', '.']);
        true
    } else {
        if p.len() == 2 {
            assert(p@ != seq!['.', '.']) by {
                if p@[0] != '.' {
                    assert(p@[0] != seq!['.', '.'][0]);
                } else {
                    assert(p@[1] != seq!['.', '.'][1]);
                }
            }
        }
        false
    }
}

pub fn components_v(s: &Vec<char>) -> (r: Vec<Vec<char>>)
    ensures
        views(r@) == components(s@),
{
    proof {
        reveal_strlit("/");
    }
    assert("/"@ =~= seq!['/']);
    let pieces = split_str(s, "/");
    let ghost pv = views(pieces@);
    let mut out: Vec<Vec<char>> = Vec::new();
    let mut i: usize = 0;
    while i < pieces.len()
        invariant
            i <= pieces.len(),
            pv == views(pieces@),
            views(out@) == pv.take(i as int).filter(|p: Seq<char>| is_component(p)),
        decreases pieces.len() - i,
    {
        let ghost before = views(out@);
        proof {
            let f = |p: Seq<char>| is_component(p);
            assert(pv.take(i + 1).drop_last() =~= pv.take(i as int));
            reveal(Seq::filter);
            assert(pv.take(i + 1).last() == pieces@[i as int]@);
        }
        if is_component_v(&pieces[i]) {
            let c = pieces[i].clone();
            assert(c@ =~= pieces@[i as int]@);
            out.push(c);
            assert(views(out@) =~= before.push(c@));
        }
        i = i + 1;
    }
    assert(pv.take(pieces.len() as int) =~= pv);
    out
}

pub fn file_name_v(s: &Vec<char>) -> (r: Option<Vec<char>>)
    ensures
        match r {
            Some(n) => file_name(s@) == Some(n@),
            None => file_name(s@) is None,
        },
{
    let c = components_v(s);
    if c.len() == 0 {
        return None;
    }
    let last = c[c.len() - 1].clone();
    assert(last@ =~= views(c@).last());
    if is_dotdot_v(&last) {
        None
    } else {
        Some(last)
    }
}

pub fn parent_name_v(s: &Vec<char>) -> (r: Option<Vec<char>>)
    ensures
        match r {
            Some(n) => parent_name(s@) == Some(n@),
            None => parent_name(s@) is None,
        },
{
    let c = components_v(s);
    if c.len() < 2 {
        return None;
    }
    let p = c[c.len() - 2].clone();
    assert(p@ =~= views(c@)[c.len() - 2]);
    if is_dotdot_v(&p) {
        None
    } else {
        Some(p)
    }
}

pub fn stem_v(s: &Vec<char>) -> (r: Option<Vec<char>>)
    ensures
        match r {
            Some(n) => stem(s@) == Some(n@),
            None => stem(s@) is None,
        },
{
    match file_name_v(s) {
        Some(n) => match strip_suffix_str(&n, ".md") {
            Some(t) => Some(t),
            None => Some(n),
        },
        None => None,
    }
}

// ---------------------------------------------------------------------------
// Components of joined paths
// ---------------------------------------------------------------------------

proof fn lemma_split_slash(a: Seq<char>, b: Seq<char>)
    ensures
        split(a + seq!['/'] + b, seq!['/']) == split(a, seq!['/']) + split(b, seq!['/']),
    decreases a.len(),
{
    let p = seq!['/'];
    let s = a + p + b;
    if crate::text::contains(a, p) {
        crate::text::lemma_find(a, p);
        let i = crate::text::find(a, p);
        assert(crate::text::occurs_at(s, p, i)) by {
            assert(s.subrange(i, i + 1) =~= a.subrange(i, i + 1));
        }
        assert forall|j: int| 0 <= j < i implies !#[trigger] crate::text::occurs_at(s, p, j) by {
            if crate::text::occurs_at(s, p, j) {
                assert(a.subrange(j, j + 1) =~= s.subrange(j, j + 1));
                assert(crate::text::occurs_at(a, p, j));
            }
        }
        crate::text::lemma_find_is(s, p, i);
        assert(s.take(i) =~= a.take(i));
        assert(s.skip(i + 1) =~= a.skip(i + 1) + p + b);
        lemma_split_slash(a.skip(i + 1), b);
    } else {
        let n = a.len() as int;
        assert(crate::text::occurs_at(s, p, n)) by {
            assert(s.subrange(n, n + 1) =~= p);
        }
        assert forall|j: int| 0 <= j < n implies !#[trigger] crate::text::occurs_at(s, p, j) by {
            if crate::text::occurs_at(s, p, j) {
                assert(a.subrange(j, j + 1) =~= s.subrange(j, j + 1));
                assert(crate::text::occurs_at(a, p, j));
            }
        }
        crate::text::lemma_find_is(s, p, n);
        crate::text::lemma_find(a, p);
        assert(s.take(n) =~= a);
        assert(s.skip(n + 1) =~= b);
    }
}

/// A segment free of `/` splits into itself.
proof fn lemma_split_segment(d: Seq<char>)
    requires
        crate::text::free_of(d, '/'),
    ensures
        split(d, seq!['/']) == seq![d],
{
    let p = seq!['/'];
    assert forall|j: int| !#[trigger] crate::text::occurs_at(d, p, j) by {
        if crate::text::occurs_at(d, p, j) {
            assert(d.subrange(j, j + 1)[0] == d[j]);
        }
    }
    crate::text::lemma_find_none(d, p);
}

/// The components of `a/b` are those of `a` then those of `b`.
pub proof fn lemma_components_join(a: Seq<char>, b: Seq<char>)
    ensures
        components(a + seq!['/'] + b) == components(a) + components(b),
{
    lemma_split_slash(a, b);
    Seq::filter_distributes_over_add(split(a, seq!['/']), split(b, seq!['/']), |p: Seq<char>| is_component(p));
}

/// A proper single component: not empty, not `.` or `..`, free of `/`.
pub open spec fn plain_component(d: Seq<char>) -> bool {
    is_component(d) && d != seq!['.', '.'] && crate::text::free_of(d, '/')
}

/// A plain component is its own list of components.
pub proof fn lemma_components_segment(d: Seq<char>)
    requires
        plain_component(d),
    ensures
        components(d) == seq![d],
{
    lemma_split_segment(d);
    reveal(Seq::filter);
    assert(seq![d].drop_last() =~= Seq::<Seq<char>>::empty());
    assert(seq![d].last() == d);
}

/// `x/d/f` has `d` as its parent name and `f` as its file name.
pub proof fn lemma_parent_and_file(x: Seq<char>, d: Seq<char>, f: Seq<char>)
    requires
        plain_component(d),
        plain_component(f),
    ensures
        parent_name(x + seq!['/'] + d + seq!['/'] + f) == Some(d),
        file_name(x + seq!['/'] + d + seq!['/'] + f) == Some(f),
        parent_name(d + seq!['/'] + f) == Some(d),
        file_name(d + seq!['/'] + f) == Some(f),
{
    lemma_components_segment(d);
    lemma_components_segment(f);
    let df = d + seq!['/'] + f;
    lemma_components_join(d, f);
    assert(components(df) =~= seq![d, f]);
    assert(x + seq!['/'] + d + seq!['/'] + f =~= x + seq!['/'] + df);
    lemma_components_join(x, df);
    let c = components(x + seq!['/'] + df);
    assert(c == components(x) + seq![d, f]);
    assert(c[c.len() - 2] == d);
    assert(c.last() == f);
}

/// A path's file name, when it has one, is a plain component.
pub proof fn lemma_file_name_plain(s: Seq<char>)
    requires
        file_name(s) is Some,
    ensures
        plain_component(file_name(s)->0),
{
    let pieces = split(s, seq!['/']);
    let pred = |p: Seq<char>| is_component(p);
    let c = components(s);
    let f = c.last();
    pieces.lemma_filter_pred(pred, c.len() - 1);
    assert(c.contains(f)) by {
        assert(c[c.len() - 1] == f);
    }
    pieces.lemma_filter_contains_rev(pred, f);
    crate::text::lemma_split_free_sep(s, '/');
    let k = choose|k: int| 0 <= k < pieces.len() && pieces[k] == f;
    assert(crate::text::free_of(pieces[k], '/'));
}

} // verus!
