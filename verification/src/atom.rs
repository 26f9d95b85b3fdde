use vstd::prelude::*;
use crate::bignum::Big;

verus! {

/// A runtime value: an arbitrary-precision integer or an ordered list
/// of values, nesting to arbitrary depth.
#[derive(Debug, PartialEq, Eq)]
pub enum Atom {
    Int(Big),
    List(Vec<Atom>),
}

/// The mathematical shape of an `Atom`: the denoted integer, or the
/// sequence of element shapes.
pub ghost enum SAtom {
    Int(int),
    List(Seq<SAtom>),
}

/// Mathematical shape of one `Atom`.
pub open spec fn aview(a: Atom) -> SAtom
    decreases a,
    via aview_dec
{
    match a {
        Atom::Int(b) => SAtom::Int(b.value()),
        Atom::List(v) => SAtom::List(vview(v@)),
    }
}

/// Mathematical shape of a sequence of `Atom`s (a stack or list body).
pub open spec fn vview(s: Seq<Atom>) -> Seq<SAtom>
    decreases s,
{
    if s.len() == 0 {
        Seq::empty()
    } else {
        vview(s.subrange(0, s.len() - 1)).push(aview(s[s.len() - 1]))
    }
}

#[via_fn]
proof fn aview_dec(a: Atom) {
    if a is List {
        assert(decreases_to!(a => a->List_0));
        assert(decreases_to!(a->List_0 => a->List_0@));
    }
}

/// A sequence's shape has the same length.
pub broadcast proof fn lemma_vview_len(s: Seq<Atom>)
    ensures
        (#[trigger] vview(s)).len() == s.len(),
    decreases s.len(),
{
    if s.len() > 0 {
        lemma_vview_len(s.subrange(0, s.len() - 1));
    }
}

/// A sequence's shape is the elementwise shape.
pub broadcast proof fn lemma_vview_index(s: Seq<Atom>, i: int)
    requires
        0 <= i < s.len(),
    ensures
        #[trigger] vview(s)[i] == aview(s[i]),
    decreases s.len(),
{
    lemma_vview_len(s.subrange(0, s.len() - 1));
    if i < s.len() - 1 {
        lemma_vview_index(s.subrange(0, s.len() - 1), i);
    }
}

impl View for Atom {
    type V = SAtom;

    open spec fn view(&self) -> SAtom {
        aview(*self)
    }
}

/// Structural size of a shape, the measure evaluation recurses on.
pub open spec fn asize(a: SAtom) -> nat
    decreases a,
{
    match a {
        SAtom::Int(_) => 1,
        SAtom::List(xs) => 1 + asize_seq(xs),
    }
}

/// Total structural size of a sequence of shapes.
pub open spec fn asize_seq(xs: Seq<SAtom>) -> nat
    decreases xs,
{
    if xs.len() == 0 {
        0
    } else {
        asize(xs[0]) + asize_seq(xs.subrange(1, xs.len() as int))
    }
}

/// A shape's size is at least one.
pub proof fn lemma_asize_pos(a: SAtom)
    ensures
        asize(a) >= 1,
{
    match a {
        SAtom::Int(_) => {},
        SAtom::List(_) => {},
    }
}

/// Every element's size is bounded by its sequence's total size.
pub proof fn lemma_asize_seq_elem(xs: Seq<SAtom>, i: int)
    requires
        0 <= i < xs.len(),
    ensures
        asize(xs[i]) <= asize_seq(xs),
    decreases xs.len(),
{
    if i == 0 {
    } else {
        let rest = xs.subrange(1, xs.len() as int);
        lemma_asize_seq_elem(rest, i - 1);
        assert(rest[i - 1] == xs[i]);
    }
}

/// Sequence shapes commute with concatenation.
pub proof fn lemma_vview_concat(s1: Seq<Atom>, s2: Seq<Atom>)
    ensures
        vview(s1 + s2) == vview(s1) + vview(s2),
{
    lemma_vview_len(s1);
    lemma_vview_len(s2);
    lemma_vview_len(s1 + s2);
    assert forall|j: int| 0 <= j < s1.len() + s2.len() implies vview(s1 + s2)[j] == (vview(s1)
        + vview(s2))[j] by {
        lemma_vview_index(s1 + s2, j);
        if j < s1.len() {
            lemma_vview_index(s1, j);
        } else {
            lemma_vview_index(s2, j - s1.len());
        }
    }
    assert(vview(s1 + s2) =~= vview(s1) + vview(s2));
}

/// Sequence shapes commute with appending one value.
pub proof fn lemma_vview_push(s: Seq<Atom>, a: Atom)
    ensures
        vview(s.push(a)) == vview(s).push(aview(a)),
{
    assert(s.push(a).subrange(0, s.len() as int) =~= s);
}

impl Atom {
    /// A structurally equal copy, built without sharing.
    pub fn duplicate(&self) -> (r: Atom)
        ensures
            r@ == self@,
        decreases asize(aview(*self)),
    {
        broadcast use lemma_vview_len, lemma_vview_index;

        match self {
            Atom::Int(b) => {
                let mut digits: Vec<u32> = Vec::new();
                let mut i: usize = 0;
                while i < b.digits.len()
                    invariant
                        0 <= i <= b.digits@.len(),
                        digits@.len() == i,
                        forall|j: int| 0 <= j < i ==> digits@[j] == b.digits@[j],
                    decreases b.digits@.len() - i,
                {
                    digits.push(b.digits[i]);
                    i += 1;
                }
                assert(digits@ =~= b.digits@);
                Atom::Int(Big { neg: b.neg, digits })
            },
            Atom::List(v) => {
                let ghost sv = vview(v@);
                let mut out: Vec<Atom> = Vec::new();
                let mut i: usize = 0;
                while i < v.len()
                    invariant
                        0 <= i <= v@.len(),
                        out@.len() == i,
                        sv == vview(v@),
                        forall|j: int| 0 <= j < i ==> aview(out@[j]) == aview(v@[j]),
                        aview(*self) == SAtom::List(sv),
                    decreases v@.len() - i,
                {
                    proof {
                        lemma_vview_len(v@);
                        lemma_vview_index(v@, i as int);
                        lemma_asize_seq_elem(sv, i as int);
                        assert(sv[i as int] == aview(v@[i as int]));
                    }
                    let e = v[i].duplicate();
                    out.push(e);
                    i += 1;
                }
                let r = Atom::List(out);
                proof {
                    lemma_vview_len(out@);
                    lemma_vview_len(v@);
                    assert forall|j: int| 0 <= j < v@.len() implies vview(out@)[j] == sv[j] by {
                        lemma_vview_index(out@, j);
                        lemma_vview_index(v@, j);
                    }
                    assert(vview(out@) =~= sv);
                }
                r
            },
        }
    }
}

} // verus!
