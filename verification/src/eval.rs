use vstd::prelude::*;
use crate::atom::{
    Atom, SAtom, aview, vview, asize, asize_seq, lemma_asize_seq_elem, lemma_asize_pos,
    lemma_vview_len, lemma_vview_index, lemma_vview_concat, lemma_vview_push,
};
use crate::bignum::{
    Big, big_add, big_sub, big_mul, big_div, big_le, big_is_zero, big_dup, div_trunc,
};
use crate::token::{
    Token, STok, tview, tsview, tsize, tssize, lemma_tssize_elem, lemma_tsize_pos,
    lemma_tsview_len, lemma_tsview_index,
};

verus! {

/// Whether execution goes on or the exit operator ended the run.
#[derive(Debug, PartialEq, Eq, Clone, Copy)]
pub enum Step {
    Go,
    Halt,
}

/// Runtime type tag of an operand, reported on a mismatch.
#[derive(Debug, PartialEq, Eq, Clone, Copy)]
pub enum Tag {
    Int,
    List,
}

/// A fatal evaluation error; nothing recovers mid-evaluation.
#[derive(Debug, PartialEq, Eq, Clone, Copy)]
pub enum EvalError {
    /// An operator met operand shapes it has no case for.
    Mismatch { op: char, first: Tag, second: Option<Tag> },
    /// Unseeded fold of an empty list, an unimplemented feature.
    EmptyFold,
    /// A division whose divisor denotes zero.
    DivByZero,
}

/// The four scalar arithmetic operators.
#[derive(Debug, PartialEq, Eq, Clone, Copy)]
pub enum DyadOp {
    Add,
    Sub,
    Mul,
    Div,
}

/// Outcome of running a token or token sequence on a stack.
pub ghost enum SOut {
    Next(Seq<SAtom>),
    Halted,
    Failed(EvalError),
}

/// Outcome of one sub-context run: the value it left on top of its
/// stack, a halt, or a fatal error.
pub ghost enum SubOut {
    Done(SAtom),
    Halted,
    Failed(EvalError),
}

/// Outcome of mapping a block over list elements.
pub ghost enum MapOut {
    Done(Seq<SAtom>),
    Halted,
    Failed(EvalError),
}

/// The type tag of a value shape.
pub open spec fn tag_of(a: SAtom) -> Tag {
    match a {
        SAtom::Int(_) => Tag::Int,
        SAtom::List(_) => Tag::List,
    }
}

/// What popping yields: the top of the stack, or the fixed sentinel
/// integer when the stack is empty (popping never fails).
pub open spec fn top_or_sentinel(stack: Seq<SAtom>) -> SAtom {
    if stack.len() == 0 {
        SAtom::Int(42)
    } else {
        stack.last()
    }
}

/// The stack after popping once.
pub open spec fn popped(stack: Seq<SAtom>) -> Seq<SAtom> {
    if stack.len() == 0 {
        stack
    } else {
        stack.drop_last()
    }
}

/// A mismatch report for a one-operand operator.
pub open spec fn mismatch1(op: char, a: SAtom) -> EvalError {
    EvalError::Mismatch { op, first: tag_of(a), second: None }
}

/// A mismatch report for a two-operand operator.
pub open spec fn mismatch2(op: char, a: SAtom, b: SAtom) -> EvalError {
    EvalError::Mismatch { op, first: tag_of(a), second: Some(tag_of(b)) }
}

/// What a scalar arithmetic operator computes.
pub open spec fn scalar_result(op: DyadOp, x: int, y: int) -> int {
    match op {
        DyadOp::Add => x + y,
        DyadOp::Sub => x - y,
        DyadOp::Mul => x * y,
        DyadOp::Div => div_trunc(x, y),
    }
}

/// An arithmetic dyad with broadcasting: scalars combine directly; two
/// lists combine pairwise, truncating to the shorter; a list and a
/// scalar combine by applying the scalar to every element. Division by
/// a zero divisor is the one failure.
pub open spec fn sdyad(op: DyadOp, a: SAtom, b: SAtom) -> Result<SAtom, EvalError>
    decreases asize(a) + asize(b), 0nat,
{
    match (a, b) {
        (SAtom::Int(x), SAtom::Int(y)) => {
            if op is Div && y == 0 {
                Err(EvalError::DivByZero)
            } else {
                Ok(SAtom::Int(scalar_result(op, x, y)))
            }
        },
        (SAtom::List(xs), SAtom::List(ys)) => match sdyad_zip(op, xs, ys) {
            Ok(zs) => Ok(SAtom::List(zs)),
            Err(e) => Err(e),
        },
        (SAtom::List(xs), _) => match sdyad_left(op, xs, b) {
            Ok(zs) => Ok(SAtom::List(zs)),
            Err(e) => Err(e),
        },
        (_, SAtom::List(ys)) => match sdyad_right(op, a, ys) {
            Ok(zs) => Ok(SAtom::List(zs)),
            Err(e) => Err(e),
        },
    }
}

/// Pairwise broadcast of two lists, truncating to the shorter.
pub open spec fn sdyad_zip(op: DyadOp, xs: Seq<SAtom>, ys: Seq<SAtom>) -> Result<
    Seq<SAtom>,
    EvalError,
>
    decreases asize_seq(xs) + asize_seq(ys), 1nat,
    via sdyad_zip_dec
{
    if xs.len() == 0 || ys.len() == 0 {
        Ok(Seq::empty())
    } else {
        match sdyad(op, xs[0], ys[0]) {
            Err(e) => Err(e),
            Ok(v) => match sdyad_zip(
                op,
                xs.subrange(1, xs.len() as int),
                ys.subrange(1, ys.len() as int),
            ) {
                Err(e) => Err(e),
                Ok(rest) => Ok(Seq::empty().push(v) + rest),
            },
        }
    }
}

/// Broadcast of a list on the left against one value on the right.
pub open spec fn sdyad_left(op: DyadOp, xs: Seq<SAtom>, b: SAtom) -> Result<Seq<SAtom>, EvalError>
    decreases asize_seq(xs) + asize(b), 1nat,
    via sdyad_left_dec
{
    if xs.len() == 0 {
        Ok(Seq::empty())
    } else {
        match sdyad(op, xs[0], b) {
            Err(e) => Err(e),
            Ok(v) => match sdyad_left(op, xs.subrange(1, xs.len() as int), b) {
                Err(e) => Err(e),
                Ok(rest) => Ok(Seq::empty().push(v) + rest),
            },
        }
    }
}

/// Broadcast of one value on the left against a list on the right.
pub open spec fn sdyad_right(op: DyadOp, a: SAtom, ys: Seq<SAtom>) -> Result<Seq<SAtom>, EvalError>
    decreases asize(a) + asize_seq(ys), 1nat,
    via sdyad_right_dec
{
    if ys.len() == 0 {
        Ok(Seq::empty())
    } else {
        match sdyad(op, a, ys[0]) {
            Err(e) => Err(e),
            Ok(v) => match sdyad_right(op, a, ys.subrange(1, ys.len() as int)) {
                Err(e) => Err(e),
                Ok(rest) => Ok(Seq::empty().push(v) + rest),
            },
        }
    }
}

#[via_fn]
proof fn sdyad_zip_dec(op: DyadOp, xs: Seq<SAtom>, ys: Seq<SAtom>) {
    if xs.len() > 0 && ys.len() > 0 {
        lemma_asize_pos(xs[0]);
        lemma_asize_pos(ys[0]);
        assert(asize_seq(xs) == asize(xs[0]) + asize_seq(xs.subrange(1, xs.len() as int)));
        assert(asize_seq(ys) == asize(ys[0]) + asize_seq(ys.subrange(1, ys.len() as int)));
    }
}

#[via_fn]
proof fn sdyad_left_dec(op: DyadOp, xs: Seq<SAtom>, b: SAtom) {
    if xs.len() > 0 {
        lemma_asize_pos(xs[0]);
        assert(asize_seq(xs) == asize(xs[0]) + asize_seq(xs.subrange(1, xs.len() as int)));
    }
}

#[via_fn]
proof fn sdyad_right_dec(op: DyadOp, a: SAtom, ys: Seq<SAtom>) {
    if ys.len() > 0 {
        lemma_asize_pos(ys[0]);
        assert(asize_seq(ys) == asize(ys[0]) + asize_seq(ys.subrange(1, ys.len() as int)));
    }
}

/// One list alternating elements of two lists, keeping the longer
/// list's remainder once the shorter is exhausted.
pub open spec fn interleave(xs: Seq<SAtom>, ys: Seq<SAtom>) -> Seq<SAtom>
    decreases xs.len() + ys.len(),
{
    if xs.len() == 0 {
        ys
    } else if ys.len() == 0 {
        xs
    } else {
        Seq::empty().push(xs[0]).push(ys[0]) + interleave(
            xs.subrange(1, xs.len() as int),
            ys.subrange(1, ys.len() as int),
        )
    }
}

/// The even-indexed elements (0-based).
pub open spec fn evens(xs: Seq<SAtom>) -> Seq<SAtom> {
    Seq::new(((xs.len() + 1) / 2) as nat, |i: int| xs[2 * i])
}

/// The odd-indexed elements (0-based).
pub open spec fn odds(xs: Seq<SAtom>) -> Seq<SAtom> {
    Seq::new((xs.len() / 2) as nat, |i: int| xs[2 * i + 1])
}

/// The ascending inclusive list 1, 2, ..., n (empty when n < 1).
pub open spec fn srange(n: int) -> Seq<SAtom> {
    Seq::new(if n < 1 { 0 } else { n as nat }, |i: int| SAtom::Int(i + 1))
}

/// Running one token on a stack.
pub open spec fn step_tok(stack: Seq<SAtom>, t: STok) -> SOut
    decreases tsize(t), 0nat, 0nat,
{
    let c = t.op;
    let cu = c as u32;
    if 48 <= cu && cu <= 57 {
        // digit glyph: push the small integer
        SOut::Next(stack.push(SAtom::Int(cu as int - 48)))
    } else if 0x2080 <= cu && cu <= 0x2089 {
        // digit-extension glyph: top * 10, then + digit unless zero
        let a = top_or_sentinel(stack);
        let rest = popped(stack);
        match sdyad(DyadOp::Mul, a, SAtom::Int(10)) {
            Err(e) => SOut::Failed(e),
            Ok(v1) => {
                if cu == 0x2080 {
                    SOut::Next(rest.push(v1))
                } else {
                    match sdyad(DyadOp::Add, v1, SAtom::Int(cu as int - 0x2080)) {
                        Err(e) => SOut::Failed(e),
                        Ok(v2) => SOut::Next(rest.push(v2)),
                    }
                }
            },
        }
    } else if c == '¡' {
        // singleton
        let a = top_or_sentinel(stack);
        SOut::Next(popped(stack).push(SAtom::List(Seq::empty().push(a))))
    } else if c == '‿' {
        // pair
        let b = top_or_sentinel(stack);
        let s1 = popped(stack);
        let a = top_or_sentinel(s1);
        SOut::Next(popped(s1).push(SAtom::List(Seq::empty().push(a).push(b))))
    } else if c == '‾' {
        // wrap stack
        SOut::Next(Seq::empty().push(SAtom::List(stack)))
    } else if c == '…' {
        // unwrap stack
        let a = top_or_sentinel(stack);
        match a {
            SAtom::List(xs) => SOut::Next(popped(stack) + xs),
            SAtom::Int(_) => SOut::Failed(mismatch1(c, a)),
        }
    } else if c == '⍨' {
        // swap top two
        let first = top_or_sentinel(stack);
        let s1 = popped(stack);
        let second = top_or_sentinel(s1);
        SOut::Next(popped(s1).push(first).push(second))
    } else if c == 'c' {
        // concatenate
        let b = top_or_sentinel(stack);
        let s1 = popped(stack);
        let a = top_or_sentinel(s1);
        let joined = match (a, b) {
            (SAtom::List(l), SAtom::List(r)) => l + r,
            (SAtom::List(l), _) => l.push(b),
            (_, SAtom::List(r)) => Seq::empty().push(a) + r,
            _ => Seq::empty().push(a).push(b),
        };
        SOut::Next(popped(s1).push(SAtom::List(joined)))
    } else if c == 'r' {
        // range
        let a = top_or_sentinel(stack);
        match a {
            SAtom::Int(n) => SOut::Next(popped(stack).push(SAtom::List(srange(n)))),
            SAtom::List(_) => SOut::Failed(mismatch1(c, a)),
        }
    } else if c == 'Λ' {
        // map
        let a = top_or_sentinel(stack);
        match a {
            SAtom::List(xs) => match map_blocks(t.children, xs) {
                MapOut::Done(rs) => SOut::Next(popped(stack).push(SAtom::List(rs))),
                MapOut::Halted => SOut::Halted,
                MapOut::Failed(e) => SOut::Failed(e),
            },
            SAtom::Int(_) => SOut::Failed(mismatch1(c, a)),
        }
    } else if c == '†' {
        // fold, first element as the accumulator
        let a = top_or_sentinel(stack);
        match a {
            SAtom::List(xs) => {
                if xs.len() == 0 {
                    SOut::Failed(EvalError::EmptyFold)
                } else if xs.len() == 1 {
                    SOut::Next(popped(stack).push(xs[0]))
                } else {
                    match fold_steps(t.children, xs[0], xs.subrange(1, xs.len() as int)) {
                        SubOut::Done(v) => SOut::Next(popped(stack).push(v)),
                        SubOut::Halted => SOut::Halted,
                        SubOut::Failed(e) => SOut::Failed(e),
                    }
                }
            },
            SAtom::Int(_) => SOut::Failed(mismatch1(c, a)),
        }
    } else if c == '‡' {
        // seeded fold
        let seed = top_or_sentinel(stack);
        let s1 = popped(stack);
        let a = top_or_sentinel(s1);
        match a {
            SAtom::List(xs) => match fold_steps(t.children, seed, xs) {
                SubOut::Done(v) => SOut::Next(popped(s1).push(v)),
                SubOut::Halted => SOut::Halted,
                SubOut::Failed(e) => SOut::Failed(e),
            },
            SAtom::Int(_) => SOut::Failed(mismatch2(c, seed, a)),
        }
    } else if c == '+' {
        step_dyad(stack, DyadOp::Add)
    } else if c == '-' {
        step_dyad(stack, DyadOp::Sub)
    } else if c == '×' {
        step_dyad(stack, DyadOp::Mul)
    } else if c == '÷' {
        step_dyad(stack, DyadOp::Div)
    } else if c == '↓' {
        // interleave
        let b = top_or_sentinel(stack);
        let s1 = popped(stack);
        let a = top_or_sentinel(s1);
        match (a, b) {
            (SAtom::List(xs), SAtom::List(ys)) => SOut::Next(
                popped(s1).push(SAtom::List(interleave(xs, ys))),
            ),
            _ => SOut::Failed(mismatch2(c, a, b)),
        }
    } else if c == '↑' {
        // uninterleave
        let a = top_or_sentinel(stack);
        match a {
            SAtom::List(xs) => SOut::Next(
                popped(stack).push(SAtom::List(evens(xs))).push(SAtom::List(odds(xs))),
            ),
            SAtom::Int(_) => SOut::Failed(mismatch1(c, a)),
        }
    } else if c == '·' {
        // exit
        SOut::Halted
    } else {
        // unrecognized operator: no-op
        SOut::Next(stack)
    }
}

/// Popping two operands and applying an arithmetic dyad.
pub open spec fn step_dyad(stack: Seq<SAtom>, op: DyadOp) -> SOut {
    let b = top_or_sentinel(stack);
    let s1 = popped(stack);
    let a = top_or_sentinel(s1);
    match sdyad(op, a, b) {
        Ok(v) => SOut::Next(popped(s1).push(v)),
        Err(e) => SOut::Failed(e),
    }
}

/// Running a token sequence left to right on a stack.
pub open spec fn run_toks(stack: Seq<SAtom>, ts: Seq<STok>) -> SOut
    decreases tssize(ts), 1nat, 0nat,
    via run_toks_dec
{
    if ts.len() == 0 {
        SOut::Next(stack)
    } else {
        match step_tok(stack, ts[0]) {
            SOut::Next(s2) => run_toks(s2, ts.subrange(1, ts.len() as int)),
            SOut::Halted => SOut::Halted,
            SOut::Failed(e) => SOut::Failed(e),
        }
    }
}

#[via_fn]
proof fn run_toks_dec(stack: Seq<SAtom>, ts: Seq<STok>) {
    if ts.len() > 0 {
        lemma_tsize_pos(ts[0]);
        assert(tssize(ts) == tsize(ts[0]) + tssize(ts.subrange(1, ts.len() as int)));
    }
}

/// Running a quoted block in a fresh sub-context seeded with `init`,
/// yielding the sub-context's final top of stack.
pub open spec fn run_block(init: Seq<SAtom>, prog: Seq<STok>) -> SubOut
    decreases tssize(prog), 2nat, 0nat,
{
    match run_toks(init, prog) {
        SOut::Next(s) => SubOut::Done(top_or_sentinel(s)),
        SOut::Halted => SubOut::Halted,
        SOut::Failed(e) => SubOut::Failed(e),
    }
}

/// Mapping a block over elements, one fresh sub-context per element.
pub open spec fn map_blocks(prog: Seq<STok>, elems: Seq<SAtom>) -> MapOut
    decreases tssize(prog), 3nat, elems.len(),
{
    if elems.len() == 0 {
        MapOut::Done(Seq::empty())
    } else {
        match run_block(Seq::empty().push(elems[0]), prog) {
            SubOut::Done(x) => match map_blocks(prog, elems.subrange(1, elems.len() as int)) {
                MapOut::Done(rs) => MapOut::Done(Seq::empty().push(x) + rs),
                MapOut::Halted => MapOut::Halted,
                MapOut::Failed(e) => MapOut::Failed(e),
            },
            SubOut::Halted => MapOut::Halted,
            SubOut::Failed(e) => MapOut::Failed(e),
        }
    }
}

/// Left fold of a block over elements: each step runs the block on a
/// fresh stack holding the accumulator below the element.
pub open spec fn fold_steps(prog: Seq<STok>, acc: SAtom, elems: Seq<SAtom>) -> SubOut
    decreases tssize(prog), 3nat, elems.len(),
{
    if elems.len() == 0 {
        SubOut::Done(acc)
    } else {
        match run_block(Seq::empty().push(acc).push(elems[0]), prog) {
            SubOut::Done(x) => fold_steps(prog, x, elems.subrange(1, elems.len() as int)),
            SubOut::Halted => SubOut::Halted,
            SubOut::Failed(e) => SubOut::Failed(e),
        }
    }
}

} // verus!

verus! {

/// The type tag of a runtime value.
pub fn atom_tag(a: &Atom) -> (t: Tag)
    ensures
        t == tag_of(aview(*a)),
{
    match a {
        Atom::Int(_) => Tag::Int,
        Atom::List(_) => Tag::List,
    }
}

/// Applies an arithmetic dyad to two values, broadcasting over lists as
/// `sdyad` describes.
pub fn dyad(op: DyadOp, a: &Atom, b: &Atom) -> (r: Result<Atom, EvalError>)
    ensures
        match sdyad(op, aview(*a), aview(*b)) {
            Ok(v) => r matches Ok(x) && aview(x) == v,
            Err(e) => r matches Err(e2) && e2 == e,
        },
    decreases asize(aview(*a)) + asize(aview(*b)),
{
    match (a, b) {
        (Atom::Int(x), Atom::Int(y)) => {
            match op {
                DyadOp::Add => Ok(Atom::Int(big_add(x, y))),
                DyadOp::Sub => Ok(Atom::Int(big_sub(x, y))),
                DyadOp::Mul => Ok(Atom::Int(big_mul(x, y))),
                DyadOp::Div => {
                    if big_is_zero(y) {
                        Err(EvalError::DivByZero)
                    } else {
                        Ok(Atom::Int(big_div(x, y)))
                    }
                },
            }
        },
        (Atom::List(xs), Atom::List(ys)) => {
            let ghost xv = vview(xs@);
            let ghost yv = vview(ys@);
            proof {
                lemma_vview_len(xs@);
                lemma_vview_len(ys@);
                assert(aview(*a) == SAtom::List(xv));
                assert(aview(*b) == SAtom::List(yv));
                assert(xv.subrange(0, xv.len() as int) =~= xv);
                assert(yv.subrange(0, yv.len() as int) =~= yv);
            }
            let n = if xs.len() < ys.len() {
                xs.len()
            } else {
                ys.len()
            };
            let mut out: Vec<Atom> = Vec::new();
            let mut i: usize = 0;
            while i < n
                invariant
                    0 <= i <= n,
                    n <= xs@.len(),
                    n <= ys@.len(),
                    n == if xs@.len() < ys@.len() { xs@.len() } else { ys@.len() },
                    xv == vview(xs@),
                    yv == vview(ys@),
                    xv.len() == xs@.len(),
                    yv.len() == ys@.len(),
                    aview(*a) == SAtom::List(xv),
                    aview(*b) == SAtom::List(yv),
                    sdyad_zip(op, xv, yv) == (match sdyad_zip(
                        op,
                        xv.subrange(i as int, xv.len() as int),
                        yv.subrange(i as int, yv.len() as int),
                    ) {
                        Ok(rest) => Ok::<Seq<SAtom>, EvalError>(vview(out@) + rest),
                        Err(e) => Err::<Seq<SAtom>, EvalError>(e),
                    }),
                decreases n - i,
            {
                let ghost xsuf = xv.subrange(i as int, xv.len() as int);
                let ghost ysuf = yv.subrange(i as int, yv.len() as int);
                proof {
                    lemma_vview_index(xs@, i as int);
                    lemma_vview_index(ys@, i as int);
                    assert(xsuf[0] == xv[i as int]);
                    assert(ysuf[0] == yv[i as int]);
                    assert(xsuf.subrange(1, xsuf.len() as int) =~= xv.subrange(
                        i as int + 1,
                        xv.len() as int,
                    ));
                    assert(ysuf.subrange(1, ysuf.len() as int) =~= yv.subrange(
                        i as int + 1,
                        yv.len() as int,
                    ));
                    lemma_asize_seq_elem(xv, i as int);
                    lemma_asize_seq_elem(yv, i as int);
                    lemma_vview_len(xs@);
                    lemma_vview_len(ys@);
                    assert(asize(aview(*a)) == 1 + asize_seq(xv));
                    assert(asize(aview(*b)) == 1 + asize_seq(yv));
                }
                let rr = dyad(op, &xs[i], &ys[i]);
                match rr {
                    Err(e) => {
                        proof {
                            assert(sdyad_zip(op, xsuf, ysuf) == Err::<Seq<SAtom>, EvalError>(e));
                            assert(sdyad(op, aview(*a), aview(*b)) == Err::<SAtom, EvalError>(e));
                        }
                        return Err(e);
                    },
                    Ok(x) => {
                        proof {
                            lemma_vview_push(out@, x);
                            match sdyad_zip(
                                op,
                                xsuf.subrange(1, xsuf.len() as int),
                                ysuf.subrange(1, ysuf.len() as int),
                            ) {
                                Ok(rest) => {
                                    assert(vview(out@) + (Seq::empty().push(aview(x)) + rest) =~= (
                                    vview(out@).push(aview(x))) + rest);
                                },
                                Err(_) => {},
                            }
                        }
                        out.push(x);
                    },
                }
                i += 1;
            }
            proof {
                assert(xv.subrange(n as int, xv.len() as int).len() == 0 || yv.subrange(
                    n as int,
                    yv.len() as int,
                ).len() == 0);
                assert(vview(out@) + Seq::<SAtom>::empty() =~= vview(out@));
                assert(sdyad_zip(op, xv, yv) == Ok::<Seq<SAtom>, EvalError>(vview(out@)));
                assert(sdyad(op, aview(*a), aview(*b)) == Ok::<SAtom, EvalError>(
                    SAtom::List(vview(out@)),
                ));
            }
            Ok(Atom::List(out))
        },
        (Atom::List(xs), _) => {
            let ghost xv = vview(xs@);
            let ghost bv = aview(*b);
            proof {
                lemma_vview_len(xs@);
                assert(aview(*a) == SAtom::List(xv));
                assert(xv.subrange(0, xv.len() as int) =~= xv);
            }
            let mut out: Vec<Atom> = Vec::new();
            let mut i: usize = 0;
            while i < xs.len()
                invariant
                    0 <= i <= xs@.len(),
                    xv == vview(xs@),
                    bv == aview(*b),
                    xv.len() == xs@.len(),
                    aview(*a) == SAtom::List(xv),
                    bv is Int,
                    sdyad_left(op, xv, bv) == (match sdyad_left(
                        op,
                        xv.subrange(i as int, xv.len() as int),
                        bv,
                    ) {
                        Ok(rest) => Ok::<Seq<SAtom>, EvalError>(vview(out@) + rest),
                        Err(e) => Err::<Seq<SAtom>, EvalError>(e),
                    }),
                decreases xs@.len() - i,
            {
                let ghost xsuf = xv.subrange(i as int, xv.len() as int);
                proof {
                    lemma_vview_index(xs@, i as int);
                    assert(xsuf[0] == xv[i as int]);
                    assert(xsuf.subrange(1, xsuf.len() as int) =~= xv.subrange(
                        i as int + 1,
                        xv.len() as int,
                    ));
                    lemma_asize_seq_elem(xv, i as int);
                    lemma_asize_pos(bv);
                    lemma_vview_len(xs@);
                    assert(asize(aview(*a)) == 1 + asize_seq(xv));
                }
                let rr = dyad(op, &xs[i], b);
                match rr {
                    Err(e) => {
                        proof {
                            assert(sdyad_left(op, xsuf, bv) == Err::<Seq<SAtom>, EvalError>(e));
                            assert(sdyad(op, aview(*a), aview(*b)) == Err::<SAtom, EvalError>(e));
                        }
                        return Err(e);
                    },
                    Ok(x) => {
                        proof {
                            lemma_vview_push(out@, x);
                            match sdyad_left(op, xsuf.subrange(1, xsuf.len() as int), bv) {
                                Ok(rest) => {
                                    assert(vview(out@) + (Seq::empty().push(aview(x)) + rest) =~= (
                                    vview(out@).push(aview(x))) + rest);
                                },
                                Err(_) => {},
                            }
                        }
                        out.push(x);
                    },
                }
                i += 1;
            }
            proof {
                assert(xv.subrange(xv.len() as int, xv.len() as int).len() == 0);
                assert(vview(out@) + Seq::<SAtom>::empty() =~= vview(out@));
                assert(sdyad_left(op, xv, bv) == Ok::<Seq<SAtom>, EvalError>(vview(out@)));
                assert(sdyad(op, aview(*a), aview(*b)) == Ok::<SAtom, EvalError>(
                    SAtom::List(vview(out@)),
                ));
            }
            Ok(Atom::List(out))
        },
        (_, Atom::List(ys)) => {
            let ghost yv = vview(ys@);
            let ghost av = aview(*a);
            proof {
                lemma_vview_len(ys@);
                assert(aview(*b) == SAtom::List(yv));
                assert(yv.subrange(0, yv.len() as int) =~= yv);
            }
            let mut out: Vec<Atom> = Vec::new();
            let mut i: usize = 0;
            while i < ys.len()
                invariant
                    0 <= i <= ys@.len(),
                    yv == vview(ys@),
                    av == aview(*a),
                    yv.len() == ys@.len(),
                    aview(*b) == SAtom::List(yv),
                    av is Int,
                    sdyad_right(op, av, yv) == (match sdyad_right(
                        op,
                        av,
                        yv.subrange(i as int, yv.len() as int),
                    ) {
                        Ok(rest) => Ok::<Seq<SAtom>, EvalError>(vview(out@) + rest),
                        Err(e) => Err::<Seq<SAtom>, EvalError>(e),
                    }),
                decreases ys@.len() - i,
            {
                let ghost ysuf = yv.subrange(i as int, yv.len() as int);
                proof {
                    lemma_vview_index(ys@, i as int);
                    assert(ysuf[0] == yv[i as int]);
                    assert(ysuf.subrange(1, ysuf.len() as int) =~= yv.subrange(
                        i as int + 1,
                        yv.len() as int,
                    ));
                    lemma_asize_seq_elem(yv, i as int);
                    lemma_asize_pos(av);
                    lemma_vview_len(ys@);
                    assert(asize(aview(*b)) == 1 + asize_seq(yv));
                }
                let rr = dyad(op, a, &ys[i]);
                match rr {
                    Err(e) => {
                        proof {
                            assert(sdyad_right(op, av, ysuf) == Err::<Seq<SAtom>, EvalError>(e));
                            assert(sdyad(op, aview(*a), aview(*b)) == Err::<SAtom, EvalError>(e));
                        }
                        return Err(e);
                    },
                    Ok(x) => {
                        proof {
                            lemma_vview_push(out@, x);
                            match sdyad_right(op, av, ysuf.subrange(1, ysuf.len() as int)) {
                                Ok(rest) => {
                                    assert(vview(out@) + (Seq::empty().push(aview(x)) + rest) =~= (
                                    vview(out@).push(aview(x))) + rest);
                                },
                                Err(_) => {},
                            }
                        }
                        out.push(x);
                    },
                }
                i += 1;
            }
            proof {
                assert(yv.subrange(yv.len() as int, yv.len() as int).len() == 0);
                assert(vview(out@) + Seq::<SAtom>::empty() =~= vview(out@));
                assert(sdyad_right(op, av, yv) == Ok::<Seq<SAtom>, EvalError>(vview(out@)));
                assert(sdyad(op, aview(*a), aview(*b)) == Ok::<SAtom, EvalError>(
                    SAtom::List(vview(out@)),
                ));
            }
            Ok(Atom::List(out))
        },
    }
}

} // verus!


verus! {

/// One evaluation context: a value stack and the program it runs.
pub struct OxyState {
    pub stack: Vec<Atom>,
    pub ops: Vec<Token>,
}

/// Unfolding of one sequencing step.
proof fn lemma_run_toks_step(stack: Seq<SAtom>, ts: Seq<STok>)
    requires
        ts.len() > 0,
    ensures
        run_toks(stack, ts) == (match step_tok(stack, ts[0]) {
            SOut::Next(s2) => run_toks(s2, ts.subrange(1, ts.len() as int)),
            SOut::Halted => SOut::Halted,
            SOut::Failed(e) => SOut::Failed(e),
        }),
{
}

/// Unfolding of a sub-context run.
proof fn lemma_run_block(init: Seq<SAtom>, prog: Seq<STok>)
    ensures
        run_block(init, prog) == (match run_toks(init, prog) {
            SOut::Next(s) => SubOut::Done(top_or_sentinel(s)),
            SOut::Halted => SubOut::Halted,
            SOut::Failed(e) => SubOut::Failed(e),
        }),
{
}

/// Unfolding of one map step.
proof fn lemma_map_blocks_step(prog: Seq<STok>, elems: Seq<SAtom>)
    requires
        elems.len() > 0,
    ensures
        map_blocks(prog, elems) == (match run_block(Seq::empty().push(elems[0]), prog) {
            SubOut::Done(x) => match map_blocks(prog, elems.subrange(1, elems.len() as int)) {
                MapOut::Done(rs) => MapOut::Done(Seq::empty().push(x) + rs),
                MapOut::Halted => MapOut::Halted,
                MapOut::Failed(e) => MapOut::Failed(e),
            },
            SubOut::Halted => MapOut::Halted,
            SubOut::Failed(e) => MapOut::Failed(e),
        }),
{
}

/// Unfolding of one fold step.
proof fn lemma_fold_steps_step(prog: Seq<STok>, acc: SAtom, elems: Seq<SAtom>)
    requires
        elems.len() > 0,
    ensures
        fold_steps(prog, acc, elems) == (match run_block(
            Seq::empty().push(acc).push(elems[0]),
            prog,
        ) {
            SubOut::Done(x) => fold_steps(prog, x, elems.subrange(1, elems.len() as int)),
            SubOut::Halted => SubOut::Halted,
            SubOut::Failed(e) => SubOut::Failed(e),
        }),
{
}

/// What the map operator yields, given a list on top of the stack.
proof fn lemma_step_map_out(stack: Seq<SAtom>, t: STok)
    requires
        t.op == 'Λ',
        top_or_sentinel(stack) is List,
    ensures
        step_tok(stack, t) == (match map_blocks(t.children, top_or_sentinel(stack)->List_0) {
            MapOut::Done(rs) => SOut::Next(popped(stack).push(SAtom::List(rs))),
            MapOut::Halted => SOut::Halted,
            MapOut::Failed(e) => SOut::Failed(e),
        }),
{
}

/// What the fold operator yields on a list of two or more elements.
proof fn lemma_step_fold_out(stack: Seq<SAtom>, t: STok)
    requires
        t.op == '†',
        top_or_sentinel(stack) is List,
        top_or_sentinel(stack)->List_0.len() >= 2,
    ensures
        step_tok(stack, t) == ({
            let xs = top_or_sentinel(stack)->List_0;
            match fold_steps(t.children, xs[0], xs.subrange(1, xs.len() as int)) {
                SubOut::Done(v) => SOut::Next(popped(stack).push(v)),
                SubOut::Halted => SOut::Halted,
                SubOut::Failed(e) => SOut::Failed(e),
            }
        }),
{
}

/// What the seeded fold operator yields, given a list below the seed.
proof fn lemma_step_sfold_out(stack: Seq<SAtom>, t: STok)
    requires
        t.op == '‡',
        top_or_sentinel(popped(stack)) is List,
    ensures
        step_tok(stack, t) == ({
            let seed = top_or_sentinel(stack);
            let xs = top_or_sentinel(popped(stack))->List_0;
            match fold_steps(t.children, seed, xs) {
                SubOut::Done(v) => SOut::Next(popped(popped(stack)).push(v)),
                SubOut::Halted => SOut::Halted,
                SubOut::Failed(e) => SOut::Failed(e),
            }
        }),
{
}

impl OxyState {
    /// A fresh context: the given program over an empty stack.
    pub fn new(ops: Vec<Token>) -> (s: Self)
        ensures
            s.ops == ops,
            s.stack@ == Seq::<Atom>::empty(),
    {
        OxyState { stack: Vec::new(), ops }
    }

    /// Pops the top of the stack; an empty stack yields the fixed
    /// sentinel integer instead of failing.
    fn pop_atom(&mut self) -> (a: Atom)
        ensures
            aview(a) == top_or_sentinel(vview(old(self).stack@)),
            vview(final(self).stack@) == popped(vview(old(self).stack@)),
            final(self).ops == old(self).ops,
    {
        proof {
            lemma_vview_len(self.stack@);
        }
        let ghost sv = vview(self.stack@);
        match self.stack.pop() {
            Some(v) => {
                proof {
                    lemma_vview_index(old(self).stack@, old(self).stack@.len() - 1);
                    lemma_vview_len(self.stack@);
                    assert forall|j: int| 0 <= j < self.stack@.len() implies vview(self.stack@)[j]
                        == sv[j] by {
                        lemma_vview_index(self.stack@, j);
                        lemma_vview_index(old(self).stack@, j);
                    }
                    assert(vview(self.stack@) =~= sv.drop_last());
                }
                v
            },
            None => { Atom::Int(Big::from_u32(42)) },
        }
    }

    /// Pushes one value.
    fn push_atom(&mut self, a: Atom)
        ensures
            vview(final(self).stack@) == vview(old(self).stack@).push(aview(a)),
            final(self).ops == old(self).ops,
    {
        let ghost s0 = self.stack@;
        self.stack.push(a);
        proof {
            lemma_vview_push(s0, a);
        }
    }

    /// Pops two operands and applies an arithmetic dyad, broadcasting
    /// over lists.
    fn exec_dyad(&mut self, op: DyadOp) -> (r: Result<Step, EvalError>)
        ensures
            final(self).ops == old(self).ops,
            match step_dyad(vview(old(self).stack@), op) {
                SOut::Next(s2) => r == Ok::<Step, EvalError>(Step::Go) && vview(
                    final(self).stack@,
                ) == s2,
                SOut::Halted => r == Ok::<Step, EvalError>(Step::Halt),
                SOut::Failed(e) => r == Err::<Step, EvalError>(e),
            },
    {
        let b = self.pop_atom();
        let a = self.pop_atom();
        match dyad(op, &a, &b) {
            Err(e) => Err(e),
            Ok(v) => {
                self.push_atom(v);
                Ok(Step::Go)
            },
        }
    }

    /// Runs one token against this context's stack.
    pub fn exec(&mut self, token: &Token) -> (r: Result<Step, EvalError>)
        ensures
            final(self).ops == old(self).ops,
            match step_tok(vview(old(self).stack@), tview(*token)) {
                SOut::Next(s2) => r == Ok::<Step, EvalError>(Step::Go) && vview(
                    final(self).stack@,
                ) == s2,
                SOut::Halted => r == Ok::<Step, EvalError>(Step::Halt),
                SOut::Failed(e) => r == Err::<Step, EvalError>(e),
            },
        decreases tsize(tview(*token)), 0nat, 1nat,
    {
        let ghost st0 = vview(self.stack@);
        let ghost tv = tview(*token);
        proof {
            assert(tv == STok { op: token.op, children: tsview(token.children@) });
        }
        let c = token.op;
        let cu = c as u32;
        if 48 <= cu && cu <= 57 {
            let b = Big::from_u32(cu - 48);
            self.push_atom(Atom::Int(b));
            Ok(Step::Go)
        } else if 0x2080 <= cu && cu <= 0x2089 {
            let a = self.pop_atom();
            let ten = Atom::Int(Big::from_u32(10));
            match dyad(DyadOp::Mul, &a, &ten) {
                Err(e) => Err(e),
                Ok(v1) => {
                    if cu == 0x2080 {
                        self.push_atom(v1);
                        Ok(Step::Go)
                    } else {
                        let d = Atom::Int(Big::from_u32(cu - 0x2080));
                        match dyad(DyadOp::Add, &v1, &d) {
                            Err(e) => Err(e),
                            Ok(v2) => {
                                self.push_atom(v2);
                                Ok(Step::Go)
                            },
                        }
                    }
                },
            }
        } else if c == '¡' {
            let a = self.pop_atom();
            let mut out: Vec<Atom> = Vec::new();
            proof {
                assert(vview(out@) =~= Seq::<SAtom>::empty());
            }
            let ghost o0 = out@;
            out.push(a);
            proof {
                lemma_vview_push(o0, a);
            }
            self.push_atom(Atom::List(out));
            Ok(Step::Go)
        } else if c == '‿' {
            let b = self.pop_atom();
            let a = self.pop_atom();
            let mut out: Vec<Atom> = Vec::new();
            proof {
                assert(vview(out@) =~= Seq::<SAtom>::empty());
            }
            let ghost o0 = out@;
            out.push(a);
            proof {
                lemma_vview_push(o0, a);
            }
            let ghost o1 = out@;
            out.push(b);
            proof {
                lemma_vview_push(o1, b);
            }
            self.push_atom(Atom::List(out));
            Ok(Step::Go)
        } else if c == '‾' {
            let mut tmp: Vec<Atom> = Vec::new();
            core::mem::swap(&mut self.stack, &mut tmp);
            proof {
                assert(vview(self.stack@) =~= Seq::<SAtom>::empty());
            }
            self.push_atom(Atom::List(tmp));
            Ok(Step::Go)
        } else if c == '…' {
            let a = self.pop_atom();
            match a {
                Atom::List(v) => {
                    let ghost s1 = self.stack@;
                    let ghost vv = v@;
                    let mut v = v;
                    self.stack.append(&mut v);
                    proof {
                        lemma_vview_concat(s1, vv);
                    }
                    Ok(Step::Go)
                },
                Atom::Int(_) => { Err(EvalError::Mismatch { op: c, first: Tag::Int, second: None }) },
            }
        } else if c == '⍨' {
            let first = self.pop_atom();
            let second = self.pop_atom();
            self.push_atom(first);
            self.push_atom(second);
            Ok(Step::Go)
        } else if c == 'c' {
            let b = self.pop_atom();
            let a = self.pop_atom();
            let ghost av = aview(a);
            let ghost bv = aview(b);
            let joined: Vec<Atom> = match (a, b) {
                (Atom::List(l), Atom::List(rr)) => {
                    let ghost lv = l@;
                    let ghost rv = rr@;
                    let mut l = l;
                    let mut rr = rr;
                    l.append(&mut rr);
                    proof {
                        lemma_vview_concat(lv, rv);
                    }
                    l
                },
                (Atom::List(l), b2) => {
                    let ghost lv = l@;
                    let mut l = l;
                    l.push(b2);
                    proof {
                        lemma_vview_push(lv, b2);
                    }
                    l
                },
                (a2, Atom::List(rr)) => {
                    let ghost rv = rr@;
                    let mut out: Vec<Atom> = Vec::new();
                    proof {
                        assert(vview(out@) =~= Seq::<SAtom>::empty());
                    }
                    let ghost o0 = out@;
                    out.push(a2);
                    proof {
                        lemma_vview_push(o0, a2);
                    }
                    let ghost o1 = out@;
                    let mut rr = rr;
                    out.append(&mut rr);
                    proof {
                        lemma_vview_concat(o1, rv);
                    }
                    out
                },
                (a2, b2) => {
                    let mut out: Vec<Atom> = Vec::new();
                    proof {
                        assert(vview(out@) =~= Seq::<SAtom>::empty());
                    }
                    let ghost o0 = out@;
                    out.push(a2);
                    proof {
                        lemma_vview_push(o0, a2);
                    }
                    let ghost o1 = out@;
                    out.push(b2);
                    proof {
                        lemma_vview_push(o1, b2);
                    }
                    out
                },
            };
            self.push_atom(Atom::List(joined));
            Ok(Step::Go)
        } else if c == '+' {
            self.exec_dyad(DyadOp::Add)
        } else if c == '-' {
            self.exec_dyad(DyadOp::Sub)
        } else if c == '×' {
            self.exec_dyad(DyadOp::Mul)
        } else if c == '÷' {
            self.exec_dyad(DyadOp::Div)
        } else if c == '·' {
            Ok(Step::Halt)
        } else if c == 'r' {
            let a = self.pop_atom();
            match a {
                Atom::List(_) => { Err(EvalError::Mismatch { op: c, first: Tag::List, second: None }) },
                Atom::Int(n) => {
                    let ghost nv = n.value();
                    let one = Big::from_u32(1);
                    let mut it = Big::from_u32(1);
                    let mut out: Vec<Atom> = Vec::new();
                    proof {
                        assert(vview(out@) =~= Seq::<SAtom>::empty());
                        lemma_vview_len(out@);
                    }
                    let mut cont = big_le(&it, &n);
                    while cont
                        invariant
                            one.value() == 1,
                            nv == n.value(),
                            cont == (it.value() <= nv),
                            1 <= it.value(),
                            it.value() == out@.len() + 1,
                            it.value() <= nv + 1 || out@.len() == 0,
                            vview(out@).len() == out@.len(),
                            forall|j: int| 0 <= j < out@.len() ==> vview(out@)[j] == SAtom::Int(
                                j + 1,
                            ),
                        decreases nv + 1 - it.value(),
                    {
                        let ghost o0 = out@;
                        let d = big_dup(&it);
                        out.push(Atom::Int(d));
                        proof {
                            lemma_vview_push(o0, Atom::Int(d));
                            lemma_vview_len(out@);
                        }
                        it = big_add(&it, &one);
                        cont = big_le(&it, &n);
                    }
                    proof {
                        lemma_vview_len(out@);
                        assert(vview(out@) =~= srange(nv));
                    }
                    self.push_atom(Atom::List(out));
                    Ok(Step::Go)
                },
            }
        } else {
            self.exec_rest(token, c)
        }
    }

    /// The remaining operators: map, the folds, interleave,
    /// uninterleave, and the no-op default.
    fn exec_rest(&mut self, token: &Token, c: char) -> (r: Result<Step, EvalError>)
        requires
            c == token.op,
            !(48 <= c as u32 <= 57),
            !(0x2080 <= c as u32 <= 0x2089),
            c != '¡' && c != '‿' && c != '‾' && c != '…' && c != '⍨' && c != 'c' && c != 'r',
            c != '+' && c != '-' && c != '×' && c != '÷' && c != '·',
        ensures
            final(self).ops == old(self).ops,
            match step_tok(vview(old(self).stack@), tview(*token)) {
                SOut::Next(s2) => r == Ok::<Step, EvalError>(Step::Go) && vview(
                    final(self).stack@,
                ) == s2,
                SOut::Halted => r == Ok::<Step, EvalError>(Step::Halt),
                SOut::Failed(e) => r == Err::<Step, EvalError>(e),
            },
        decreases tsize(tview(*token)), 0nat, 0nat,
    {
        let ghost st0 = vview(self.stack@);
        let ghost tv = tview(*token);
        let ghost chv = tsview(token.children@);
        proof {
            assert(tv == STok { op: token.op, children: tsview(token.children@) });
            assert(tsize(tv) == 1 + tssize(chv));
        }
        if c == 'Λ' {
            let a = self.pop_atom();
            match a {
                Atom::Int(_) => { Err(EvalError::Mismatch { op: c, first: Tag::Int, second: None }) },
                Atom::List(v) => {
                    let ghost xv = vview(v@);
                    let ghost popv = popped(st0);
                    let ghost mid = self.stack@;
                    let ghost so = self.ops;
                    proof {
                        lemma_vview_len(v@);
                        assert(aview(Atom::List(v)) == SAtom::List(xv));
                        lemma_step_map_out(st0, tv);
                        assert(xv.subrange(0, xv.len() as int) =~= xv);
                    }
                    let mut results: Vec<Atom> = Vec::new();
                    proof {
                        assert(vview(results@) =~= Seq::<SAtom>::empty());
                    }
                    let mut i: usize = 0;
                    while i < v.len()
                        invariant
                            0 <= i <= v@.len(),
                            xv == vview(v@),
                            xv.len() == v@.len(),
                            chv == tsview(token.children@),
                            tv == tview(*token),
                            tv.children == chv,
                            tsize(tv) == 1 + tssize(chv),
                            self.stack@ == mid,
                            self.ops == so,
                            so == old(self).ops,
                            st0 == vview(old(self).stack@),
                            vview(mid) == popv,
                            step_tok(st0, tv) == (match map_blocks(chv, xv) {
                                MapOut::Done(rs) => SOut::Next(popv.push(SAtom::List(rs))),
                                MapOut::Halted => SOut::Halted,
                                MapOut::Failed(e) => SOut::Failed(e),
                            }),
                            match map_blocks(chv, xv.subrange(i as int, xv.len() as int)) {
                                MapOut::Done(rs) => map_blocks(chv, xv) == MapOut::Done(
                                    vview(results@) + rs,
                                ),
                                MapOut::Halted => map_blocks(chv, xv) == MapOut::Halted,
                                MapOut::Failed(e) => map_blocks(chv, xv) == MapOut::Failed(e),
                            },
                        decreases v@.len() - i,
                    {
                        let ghost esuf = xv.subrange(i as int, xv.len() as int);
                        proof {
                            lemma_vview_index(v@, i as int);
                            assert(esuf[0] == xv[i as int]);
                            assert(esuf.subrange(1, esuf.len() as int) =~= xv.subrange(
                                i as int + 1,
                                xv.len() as int,
                            ));
                            lemma_map_blocks_step(chv, esuf);
                        }
                        let x = v[i].duplicate();
                        let mut init: Vec<Atom> = Vec::new();
                        proof {
                            assert(vview(init@) =~= Seq::<SAtom>::empty());
                        }
                        let ghost i0 = init@;
                        init.push(x);
                        proof {
                            lemma_vview_push(i0, x);
                        }
                        let ghost initv = vview(init@);
                        let mut sub = OxyState { stack: init, ops: Vec::new() };
                        proof {
                            assert(initv == Seq::empty().push(esuf[0]));
                            lemma_run_block(initv, chv);
                        }
                        let st = sub.exec_sequence(&token.children);
                        match st {
                            Err(e) => {
                                return Err(e);
                            },
                            Ok(Step::Halt) => {
                                return Ok(Step::Halt);
                            },
                            Ok(Step::Go) => {
                                let val = sub.pop_atom();
                                let ghost r0 = results@;
                                results.push(val);
                                proof {
                                    lemma_vview_push(r0, val);
                                    match map_blocks(
                                        chv,
                                        xv.subrange(i as int + 1, xv.len() as int),
                                    ) {
                                        MapOut::Done(rs) => {
                                            assert(vview(r0) + (Seq::empty().push(aview(val)) + rs)
                                                =~= vview(results@) + rs);
                                        },
                                        MapOut::Halted => {},
                                        MapOut::Failed(_) => {},
                                    }
                                }
                                i += 1;
                            },
                        }
                    }
                    proof {
                        assert(xv.subrange(v@.len() as int, xv.len() as int).len() == 0);
                        assert(vview(results@) + Seq::<SAtom>::empty() =~= vview(results@));
                    }
                    self.push_atom(Atom::List(results));
                    Ok(Step::Go)
                },
            }
        } else if c == '†' {
            let a = self.pop_atom();
            match a {
                Atom::Int(_) => { Err(EvalError::Mismatch { op: c, first: Tag::Int, second: None }) },
                Atom::List(v) => {
                    let ghost xv = vview(v@);
                    let ghost popv = popped(st0);
                    let ghost mid = self.stack@;
                    let ghost so = self.ops;
                    proof {
                        lemma_vview_len(v@);
                        assert(aview(Atom::List(v)) == SAtom::List(xv));
                    }
                    if v.len() == 0 {
                        Err(EvalError::EmptyFold)
                    } else if v.len() == 1 {
                        proof {
                            lemma_vview_index(v@, 0);
                        }
                        let x = v[0].duplicate();
                        self.push_atom(x);
                        Ok(Step::Go)
                    } else {
                        proof {
                            lemma_step_fold_out(st0, tv);
                            lemma_vview_index(v@, 0);
                        }
                        let mut acc = v[0].duplicate();
                        let mut i: usize = 1;
                        while i < v.len()
                            invariant
                                1 <= i <= v@.len(),
                                xv == vview(v@),
                                xv.len() == v@.len(),
                                xv.len() >= 2,
                                chv == tsview(token.children@),
                                tv == tview(*token),
                                tv.children == chv,
                                tsize(tv) == 1 + tssize(chv),
                                self.stack@ == mid,
                                self.ops == so,
                                so == old(self).ops,
                                st0 == vview(old(self).stack@),
                                vview(mid) == popv,
                                step_tok(st0, tv) == (match fold_steps(
                                    chv,
                                    xv[0],
                                    xv.subrange(1, xv.len() as int),
                                ) {
                                    SubOut::Done(vv) => SOut::Next(popv.push(vv)),
                                    SubOut::Halted => SOut::Halted,
                                    SubOut::Failed(e) => SOut::Failed(e),
                                }),
                                fold_steps(chv, xv[0], xv.subrange(1, xv.len() as int))
                                    == fold_steps(
                                    chv,
                                    aview(acc),
                                    xv.subrange(i as int, xv.len() as int),
                                ),
                            decreases v@.len() - i,
                        {
                            let ghost esuf = xv.subrange(i as int, xv.len() as int);
                            let ghost accv = aview(acc);
                            proof {
                                lemma_vview_index(v@, i as int);
                                assert(esuf[0] == xv[i as int]);
                                assert(esuf.subrange(1, esuf.len() as int) =~= xv.subrange(
                                    i as int + 1,
                                    xv.len() as int,
                                ));
                                lemma_fold_steps_step(chv, accv, esuf);
                            }
                            let x = v[i].duplicate();
                            let mut init: Vec<Atom> = Vec::new();
                            proof {
                                assert(vview(init@) =~= Seq::<SAtom>::empty());
                            }
                            let ghost i0 = init@;
                            init.push(acc);
                            proof {
                                lemma_vview_push(i0, acc);
                            }
                            let ghost i1 = init@;
                            init.push(x);
                            proof {
                                lemma_vview_push(i1, x);
                            }
                            let ghost initv = vview(init@);
                            let mut sub = OxyState { stack: init, ops: Vec::new() };
                            proof {
                                assert(initv == Seq::empty().push(accv).push(esuf[0]));
                                lemma_run_block(initv, chv);
                            }
                            let st = sub.exec_sequence(&token.children);
                            match st {
                                Err(e) => {
                                    return Err(e);
                                },
                                Ok(Step::Halt) => {
                                    return Ok(Step::Halt);
                                },
                                Ok(Step::Go) => {
                                    acc = sub.pop_atom();
                                    i += 1;
                                },
                            }
                        }
                        proof {
                            assert(xv.subrange(v@.len() as int, xv.len() as int).len() == 0);
                        }
                        self.push_atom(acc);
                        Ok(Step::Go)
                    }
                },
            }
        } else if c == '‡' {
            let seed = self.pop_atom();
            let a2 = self.pop_atom();
            let ghost seedv = aview(seed);
            match a2 {
                Atom::Int(_) => {
                    let t1 = atom_tag(&seed);
                    Err(EvalError::Mismatch { op: c, first: t1, second: Some(Tag::Int) })
                },
                Atom::List(v) => {
                    let ghost xv = vview(v@);
                    let ghost popv = popped(popped(st0));
                    let ghost mid = self.stack@;
                    let ghost so = self.ops;
                    proof {
                        lemma_vview_len(v@);
                        assert(aview(Atom::List(v)) == SAtom::List(xv));
                        lemma_step_sfold_out(st0, tv);
                        assert(xv.subrange(0, xv.len() as int) =~= xv);
                    }
                    let mut acc = seed;
                    let mut i: usize = 0;
                    while i < v.len()
                        invariant
                            0 <= i <= v@.len(),
                            xv == vview(v@),
                            xv.len() == v@.len(),
                            chv == tsview(token.children@),
                            tv == tview(*token),
                            tv.children == chv,
                            tsize(tv) == 1 + tssize(chv),
                            self.stack@ == mid,
                            self.ops == so,
                            so == old(self).ops,
                            st0 == vview(old(self).stack@),
                            vview(mid) == popv,
                            step_tok(st0, tv) == (match fold_steps(chv, seedv, xv) {
                                SubOut::Done(vv) => SOut::Next(popv.push(vv)),
                                SubOut::Halted => SOut::Halted,
                                SubOut::Failed(e) => SOut::Failed(e),
                            }),
                            fold_steps(chv, seedv, xv) == fold_steps(
                                chv,
                                aview(acc),
                                xv.subrange(i as int, xv.len() as int),
                            ),
                        decreases v@.len() - i,
                    {
                        let ghost esuf = xv.subrange(i as int, xv.len() as int);
                        let ghost accv = aview(acc);
                        proof {
                            lemma_vview_index(v@, i as int);
                            assert(esuf[0] == xv[i as int]);
                            assert(esuf.subrange(1, esuf.len() as int) =~= xv.subrange(
                                i as int + 1,
                                xv.len() as int,
                            ));
                            lemma_fold_steps_step(chv, accv, esuf);
                        }
                        let x = v[i].duplicate();
                        let mut init: Vec<Atom> = Vec::new();
                        proof {
                            assert(vview(init@) =~= Seq::<SAtom>::empty());
                        }
                        let ghost i0 = init@;
                        init.push(acc);
                        proof {
                            lemma_vview_push(i0, acc);
                        }
                        let ghost i1 = init@;
                        init.push(x);
                        proof {
                            lemma_vview_push(i1, x);
                        }
                        let ghost initv = vview(init@);
                        let mut sub = OxyState { stack: init, ops: Vec::new() };
                        proof {
                            assert(initv == Seq::empty().push(accv).push(esuf[0]));
                            lemma_run_block(initv, chv);
                        }
                        let st = sub.exec_sequence(&token.children);
                        match st {
                            Err(e) => {
                                return Err(e);
                            },
                            Ok(Step::Halt) => {
                                return Ok(Step::Halt);
                            },
                            Ok(Step::Go) => {
                                acc = sub.pop_atom();
                                i += 1;
                            },
                        }
                    }
                    proof {
                        assert(xv.subrange(v@.len() as int, xv.len() as int).len() == 0);
                    }
                    self.push_atom(acc);
                    Ok(Step::Go)
                },
            }
        } else if c == '↓' {
            let b = self.pop_atom();
            let a = self.pop_atom();
            let ta = atom_tag(&a);
            let tb = atom_tag(&b);
            match (a, b) {
                (Atom::List(l), Atom::List(rr)) => {
                    let ghost lv = vview(l@);
                    let ghost rv = vview(rr@);
                    proof {
                        lemma_vview_len(l@);
                        lemma_vview_len(rr@);
                        assert(lv.subrange(0, lv.len() as int) =~= lv);
                        assert(rv.subrange(0, rv.len() as int) =~= rv);
                    }
                    let n = if l.len() < rr.len() {
                        l.len()
                    } else {
                        rr.len()
                    };
                    let mut out: Vec<Atom> = Vec::new();
                    proof {
                        assert(vview(out@) =~= Seq::<SAtom>::empty());
                    }
                    let mut i: usize = 0;
                    while i < n
                        invariant
                            0 <= i <= n,
                            n <= l@.len(),
                            n <= rr@.len(),
                            n == if l@.len() < rr@.len() { l@.len() } else { rr@.len() },
                            lv == vview(l@),
                            rv == vview(rr@),
                            lv.len() == l@.len(),
                            rv.len() == rr@.len(),
                            interleave(lv, rv) == vview(out@) + interleave(
                                lv.subrange(i as int, lv.len() as int),
                                rv.subrange(i as int, rv.len() as int),
                            ),
                        decreases n - i,
                    {
                        let ghost lsuf = lv.subrange(i as int, lv.len() as int);
                        let ghost rsuf = rv.subrange(i as int, rv.len() as int);
                        proof {
                            lemma_vview_index(l@, i as int);
                            lemma_vview_index(rr@, i as int);
                            assert(lsuf[0] == lv[i as int]);
                            assert(rsuf[0] == rv[i as int]);
                            assert(lsuf.subrange(1, lsuf.len() as int) =~= lv.subrange(
                                i as int + 1,
                                lv.len() as int,
                            ));
                            assert(rsuf.subrange(1, rsuf.len() as int) =~= rv.subrange(
                                i as int + 1,
                                rv.len() as int,
                            ));
                        }
                        let ghost o0 = out@;
                        let xa = l[i].duplicate();
                        out.push(xa);
                        proof {
                            lemma_vview_push(o0, xa);
                        }
                        let ghost o1 = out@;
                        let xb = rr[i].duplicate();
                        out.push(xb);
                        proof {
                            lemma_vview_push(o1, xb);
                            assert(vview(o0) + (Seq::empty().push(lv[i as int]).push(
                                rv[i as int],
                            ) + interleave(
                                lv.subrange(i as int + 1, lv.len() as int),
                                rv.subrange(i as int + 1, rv.len() as int),
                            )) =~= vview(out@) + interleave(
                                lv.subrange(i as int + 1, lv.len() as int),
                                rv.subrange(i as int + 1, rv.len() as int),
                            ));
                        }
                        i += 1;
                    }
                    if n < l.len() {
                        proof {
                            assert(rv.subrange(n as int, rv.len() as int).len() == 0);
                        }
                        let mut j: usize = n;
                        while j < l.len()
                            invariant
                                0 <= j <= l@.len(),
                                lv == vview(l@),
                                lv.len() == l@.len(),
                                interleave(lv, rv) == vview(out@) + lv.subrange(
                                    j as int,
                                    lv.len() as int,
                                ),
                            decreases l@.len() - j,
                        {
                            let ghost lsuf = lv.subrange(j as int, lv.len() as int);
                            proof {
                                lemma_vview_index(l@, j as int);
                                assert(lsuf[0] == lv[j as int]);
                            }
                            let ghost o0 = out@;
                            let xa = l[j].duplicate();
                            out.push(xa);
                            proof {
                                lemma_vview_push(o0, xa);
                                assert(lv.subrange(j as int + 1, lv.len() as int) =~= lsuf.subrange(
                                    1,
                                    lsuf.len() as int,
                                ));
                                assert(vview(o0) + lsuf =~= vview(out@) + lsuf.subrange(
                                    1,
                                    lsuf.len() as int,
                                ));
                            }
                            j += 1;
                        }
                        proof {
                            assert(lv.subrange(lv.len() as int, lv.len() as int).len() == 0);
                            assert(vview(out@) + Seq::<SAtom>::empty() =~= vview(out@));
                            assert(interleave(lv, rv) == vview(out@));
                        }
                    } else if n < rr.len() {
                        proof {
                            assert(lv.subrange(n as int, lv.len() as int).len() == 0);
                        }
                        let mut k: usize = n;
                        while k < rr.len()
                            invariant
                                0 <= k <= rr@.len(),
                                rv == vview(rr@),
                                rv.len() == rr@.len(),
                                interleave(lv, rv) == vview(out@) + rv.subrange(
                                    k as int,
                                    rv.len() as int,
                                ),
                            decreases rr@.len() - k,
                        {
                            let ghost rsuf = rv.subrange(k as int, rv.len() as int);
                            proof {
                                lemma_vview_index(rr@, k as int);
                                assert(rsuf[0] == rv[k as int]);
                            }
                            let ghost o0 = out@;
                            let xb = rr[k].duplicate();
                            out.push(xb);
                            proof {
                                lemma_vview_push(o0, xb);
                                assert(rv.subrange(k as int + 1, rv.len() as int) =~= rsuf.subrange(
                                    1,
                                    rsuf.len() as int,
                                ));
                                assert(vview(o0) + rsuf =~= vview(out@) + rsuf.subrange(
                                    1,
                                    rsuf.len() as int,
                                ));
                            }
                            k += 1;
                        }
                        proof {
                            assert(rv.subrange(rv.len() as int, rv.len() as int).len() == 0);
                            assert(vview(out@) + Seq::<SAtom>::empty() =~= vview(out@));
                            assert(interleave(lv, rv) == vview(out@));
                        }
                    } else {
                        proof {
                            assert(lv.subrange(n as int, lv.len() as int).len() == 0);
                            assert(rv.subrange(n as int, rv.len() as int).len() == 0);
                            assert(vview(out@) + Seq::<SAtom>::empty() =~= vview(out@));
                            assert(interleave(lv, rv) == vview(out@));
                        }
                    }
                    self.push_atom(Atom::List(out));
                    Ok(Step::Go)
                },
                _ => { Err(EvalError::Mismatch { op: c, first: ta, second: Some(tb) }) },
            }
        } else if c == '↑' {
            let a = self.pop_atom();
            match a {
                Atom::Int(_) => { Err(EvalError::Mismatch { op: c, first: Tag::Int, second: None }) },
                Atom::List(v) => {
                    let ghost xv = vview(v@);
                    proof {
                        lemma_vview_len(v@);
                        assert(aview(Atom::List(v)) == SAtom::List(xv));
                    }
                    let mut ev: Vec<Atom> = Vec::new();
                    let mut od: Vec<Atom> = Vec::new();
                    let mut i: usize = 0;
                    while i < v.len()
                        invariant
                            0 <= i <= v@.len(),
                            xv == vview(v@),
                            xv.len() == v@.len(),
                            ev@.len() == (i + 1) / 2,
                            od@.len() == i / 2,
                            forall|j: int| 0 <= j < ev@.len() ==> aview(ev@[j]) == xv[2 * j],
                            forall|j: int| 0 <= j < od@.len() ==> aview(od@[j]) == xv[2 * j + 1],
                        decreases v@.len() - i,
                    {
                        proof {
                            lemma_vview_index(v@, i as int);
                        }
                        let x = v[i].duplicate();
                        if i % 2 == 0 {
                            let ghost e0 = ev@;
                            ev.push(x);
                            proof {
                                lemma_vview_push(e0, x);
                            }
                        } else {
                            let ghost d0 = od@;
                            od.push(x);
                            proof {
                                lemma_vview_push(d0, x);
                            }
                        }
                        i += 1;
                    }
                    proof {
                        lemma_vview_len(ev@);
                        lemma_vview_len(od@);
                        assert forall|j: int| 0 <= j < ev@.len() implies vview(ev@)[j] == evens(
                            xv,
                        )[j] by {
                            lemma_vview_index(ev@, j);
                        }
                        assert forall|j: int| 0 <= j < od@.len() implies vview(od@)[j] == odds(
                            xv,
                        )[j] by {
                            lemma_vview_index(od@, j);
                        }
                        assert(vview(ev@) =~= evens(xv));
                        assert(vview(od@) =~= odds(xv));
                    }
                    self.push_atom(Atom::List(ev));
                    self.push_atom(Atom::List(od));
                    Ok(Step::Go)
                },
            }
        } else {
            Ok(Step::Go)
        }
    }

    /// Runs a token sequence, left to right, against this context's
    /// stack.
    pub fn exec_sequence(&mut self, ops: &Vec<Token>) -> (r: Result<Step, EvalError>)
        ensures
            final(self).ops == old(self).ops,
            match run_toks(vview(old(self).stack@), tsview(ops@)) {
                SOut::Next(s2) => r == Ok::<Step, EvalError>(Step::Go) && vview(
                    final(self).stack@,
                ) == s2,
                SOut::Halted => r == Ok::<Step, EvalError>(Step::Halt),
                SOut::Failed(e) => r == Err::<Step, EvalError>(e),
            },
        decreases tssize(tsview(ops@)), 1nat, 0nat,
    {
        let ghost pv = tsview(ops@);
        let ghost st0 = vview(self.stack@);
        let ghost so = self.ops;
        proof {
            lemma_tsview_len(ops@);
            assert(pv.subrange(0, pv.len() as int) =~= pv);
        }
        let mut i: usize = 0;
        while i < ops.len()
            invariant
                0 <= i <= ops@.len(),
                pv == tsview(ops@),
                pv.len() == ops@.len(),
                self.ops == so,
                so == old(self).ops,
                st0 == vview(old(self).stack@),
                run_toks(st0, pv) == run_toks(
                    vview(self.stack@),
                    pv.subrange(i as int, pv.len() as int),
                ),
            decreases ops@.len() - i,
        {
            let ghost suf = pv.subrange(i as int, pv.len() as int);
            proof {
                lemma_tsview_index(ops@, i as int);
                assert(suf[0] == pv[i as int]);
                assert(suf.subrange(1, suf.len() as int) =~= pv.subrange(
                    i as int + 1,
                    pv.len() as int,
                ));
                lemma_run_toks_step(vview(self.stack@), suf);
                lemma_tssize_elem(pv, i as int);
            }
            let st = self.exec(&ops[i]);
            match st {
                Err(e) => {
                    return Err(e);
                },
                Ok(Step::Halt) => {
                    return Ok(Step::Halt);
                },
                Ok(Step::Go) => {
                    i += 1;
                },
            }
        }
        proof {
            assert(pv.subrange(pv.len() as int, pv.len() as int).len() == 0);
        }
        Ok(Step::Go)
    }

    /// Runs this context's own program against its stack.
    pub fn run(&mut self) -> (r: Result<Step, EvalError>)
        ensures
            final(self).ops == old(self).ops,
            match run_toks(vview(old(self).stack@), tsview(old(self).ops@)) {
                SOut::Next(s2) => r == Ok::<Step, EvalError>(Step::Go) && vview(
                    final(self).stack@,
                ) == s2,
                SOut::Halted => r == Ok::<Step, EvalError>(Step::Halt),
                SOut::Failed(e) => r == Err::<Step, EvalError>(e),
            },
    {
        let mut prog: Vec<Token> = Vec::new();
        core::mem::swap(&mut self.ops, &mut prog);
        let r = self.exec_sequence(&prog);
        core::mem::swap(&mut self.ops, &mut prog);
        r
    }
}

} // verus!

verus! {

/// Arithmetic law: on scalars, add yields the sum, subtract the
/// difference, multiply the product, and divide (with a nonzero
/// divisor) the quotient truncated toward zero.
pub proof fn lemma_arith_scalars(a: int, b: int)
    requires
        a >= 0,
        b >= 0,
    ensures
        sdyad(DyadOp::Add, SAtom::Int(a), SAtom::Int(b)) == Ok::<SAtom, EvalError>(
            SAtom::Int(a + b),
        ),
        sdyad(DyadOp::Sub, SAtom::Int(a), SAtom::Int(b)) == Ok::<SAtom, EvalError>(
            SAtom::Int(a - b),
        ),
        sdyad(DyadOp::Mul, SAtom::Int(a), SAtom::Int(b)) == Ok::<SAtom, EvalError>(
            SAtom::Int(a * b),
        ),
        b != 0 ==> sdyad(DyadOp::Div, SAtom::Int(a), SAtom::Int(b)) == Ok::<SAtom, EvalError>(
            SAtom::Int(div_trunc(a, b)),
        ),
{
}

/// Truncation toward zero: on non-negative operands the quotient is the
/// floor quotient, and negating one operand negates the quotient.
pub proof fn lemma_div_truncates(a: int, b: int)
    requires
        a >= 0,
        b > 0,
    ensures
        div_trunc(a, b) == a / b,
        div_trunc(-a, b) == -(a / b),
        div_trunc(a, -b) == -(a / b),
        div_trunc(-a, -b) == a / b,
{
}

/// A non-dividing dyad succeeds on any operand shapes.
proof fn lemma_sdyad_total(op: DyadOp, a: SAtom, b: SAtom)
    requires
        !(op is Div),
    ensures
        sdyad(op, a, b) is Ok,
    decreases asize(a) + asize(b), 0nat,
{
    match (a, b) {
        (SAtom::Int(_), SAtom::Int(_)) => {},
        (SAtom::List(xs), SAtom::List(ys)) => {
            lemma_zip_total(op, xs, ys);
        },
        (SAtom::List(xs), _) => {
            lemma_left_total(op, xs, b);
        },
        (_, SAtom::List(ys)) => {
            lemma_right_total(op, a, ys);
        },
    }
}

/// Pairwise broadcast of a non-dividing dyad succeeds and truncates to
/// the shorter operand.
proof fn lemma_zip_total(op: DyadOp, xs: Seq<SAtom>, ys: Seq<SAtom>)
    requires
        !(op is Div),
    ensures
        sdyad_zip(op, xs, ys) matches Ok(zs) && zs.len() == (if xs.len() <= ys.len() {
            xs.len()
        } else {
            ys.len()
        }),
    decreases asize_seq(xs) + asize_seq(ys), 1nat,
{
    if xs.len() > 0 && ys.len() > 0 {
        lemma_asize_pos(xs[0]);
        lemma_asize_pos(ys[0]);
        assert(asize_seq(xs) == asize(xs[0]) + asize_seq(xs.subrange(1, xs.len() as int)));
        assert(asize_seq(ys) == asize(ys[0]) + asize_seq(ys.subrange(1, ys.len() as int)));
        lemma_sdyad_total(op, xs[0], ys[0]);
        lemma_zip_total(op, xs.subrange(1, xs.len() as int), ys.subrange(1, ys.len() as int));
    }
}

/// Left broadcast of a non-dividing dyad succeeds, keeping the list's
/// length.
proof fn lemma_left_total(op: DyadOp, xs: Seq<SAtom>, b: SAtom)
    requires
        !(op is Div),
    ensures
        sdyad_left(op, xs, b) matches Ok(zs) && zs.len() == xs.len(),
    decreases asize_seq(xs) + asize(b), 1nat,
{
    if xs.len() > 0 {
        lemma_asize_pos(xs[0]);
        assert(asize_seq(xs) == asize(xs[0]) + asize_seq(xs.subrange(1, xs.len() as int)));
        lemma_sdyad_total(op, xs[0], b);
        lemma_left_total(op, xs.subrange(1, xs.len() as int), b);
    }
}

/// Right broadcast of a non-dividing dyad succeeds, keeping the list's
/// length.
proof fn lemma_right_total(op: DyadOp, a: SAtom, ys: Seq<SAtom>)
    requires
        !(op is Div),
    ensures
        sdyad_right(op, a, ys) matches Ok(zs) && zs.len() == ys.len(),
    decreases asize(a) + asize_seq(ys), 1nat,
{
    if ys.len() > 0 {
        lemma_asize_pos(ys[0]);
        assert(asize_seq(ys) == asize(ys[0]) + asize_seq(ys.subrange(1, ys.len() as int)));
        lemma_sdyad_total(op, a, ys[0]);
        lemma_right_total(op, a, ys.subrange(1, ys.len() as int));
    }
}

/// Broadcast truncation law: a non-dividing dyad on two lists succeeds
/// and yields a list as long as the shorter operand; on a list and a
/// scalar it keeps the list's length.
pub proof fn lemma_broadcast_truncation(op: DyadOp, xs: Seq<SAtom>, ys: Seq<SAtom>)
    requires
        !(op is Div),
    ensures
        sdyad(op, SAtom::List(xs), SAtom::List(ys)) matches Ok(v) && v is List
            && v->List_0.len() == (if xs.len() <= ys.len() {
            xs.len()
        } else {
            ys.len()
        }),
{
    lemma_zip_total(op, xs, ys);
}

/// Broadcast of a scalar over a list keeps the list's length.
pub proof fn lemma_broadcast_scalar(op: DyadOp, xs: Seq<SAtom>, b: int)
    requires
        !(op is Div),
    ensures
        sdyad(op, SAtom::List(xs), SAtom::Int(b)) matches Ok(v) && v is List && v->List_0.len()
            == xs.len(),
{
    lemma_left_total(op, xs, SAtom::Int(b));
}

/// Interleave preserves every element: the result is as long as both
/// operands together, in contrast with arithmetic's truncating
/// broadcast.
pub proof fn lemma_interleave_len(xs: Seq<SAtom>, ys: Seq<SAtom>)
    ensures
        interleave(xs, ys).len() == xs.len() + ys.len(),
    decreases xs.len() + ys.len(),
{
    if xs.len() > 0 && ys.len() > 0 {
        lemma_interleave_len(
            xs.subrange(1, xs.len() as int),
            ys.subrange(1, ys.len() as int),
        );
    }
}

/// Structural law: wrapping the stack leaves one list holding it, and
/// unwrapping that list restores the stack, in order.
pub proof fn lemma_wrap_unwrap(stack: Seq<SAtom>)
    ensures
        step_tok(stack, crate::token::sleaf('‾')) matches SOut::Next(s1) && step_tok(
            s1,
            crate::token::sleaf('…'),
        ) == SOut::Next(stack),
{
    let s1 = Seq::empty().push(SAtom::List(stack));
    assert(step_tok(stack, crate::token::sleaf('‾')) == SOut::Next(s1));
    assert(top_or_sentinel(s1) == SAtom::List(stack));
    assert(popped(s1) =~= Seq::<SAtom>::empty());
    assert(popped(s1) + stack =~= stack);
}

/// Fold law: a seeded fold over an empty list yields the seed
/// unchanged.
pub proof fn lemma_seeded_fold_empty(prog: Seq<STok>, seed: SAtom)
    ensures
        fold_steps(prog, seed, Seq::empty()) == SubOut::Done(seed),
{
}

} // verus!
