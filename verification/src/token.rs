use vstd::prelude::*;

verus! {

/// One node of the parsed program: an operator glyph and its quoted
/// child program (empty for primitive operators).
#[derive(Debug, PartialEq, Eq)]
pub struct Token {
    pub op: char,
    pub children: Vec<Token>,
}

/// Mathematical shape of a `Token`.
pub ghost struct STok {
    pub op: char,
    pub children: Seq<STok>,
}

/// The tokenizer's one fatal case: a closer glyph with no open frame.
#[derive(Debug, PartialEq, Eq, Clone, Copy)]
pub enum ParseError {
    UnmatchedCloser,
}

/// Mathematical shape of one `Token`.
pub open spec fn tview(t: Token) -> STok
    decreases t,
    via tview_dec
{
    STok { op: t.op, children: tsview(t.children@) }
}

/// Mathematical shape of a sequence of `Token`s.
pub open spec fn tsview(s: Seq<Token>) -> Seq<STok>
    decreases s,
{
    if s.len() == 0 {
        Seq::empty()
    } else {
        tsview(s.subrange(0, s.len() - 1)).push(tview(s[s.len() - 1]))
    }
}

#[via_fn]
proof fn tview_dec(t: Token) {
    assert(decreases_to!(t => t.children));
    assert(decreases_to!(t.children => t.children@));
}

impl View for Token {
    type V = STok;

    open spec fn view(&self) -> STok {
        tview(*self)
    }
}

/// A token sequence's shape has the same length.
pub broadcast proof fn lemma_tsview_len(s: Seq<Token>)
    ensures
        (#[trigger] tsview(s)).len() == s.len(),
    decreases s.len(),
{
    if s.len() > 0 {
        lemma_tsview_len(s.subrange(0, s.len() - 1));
    }
}

/// A token sequence's shape is the elementwise shape.
pub broadcast proof fn lemma_tsview_index(s: Seq<Token>, i: int)
    requires
        0 <= i < s.len(),
    ensures
        #[trigger] tsview(s)[i] == tview(s[i]),
    decreases s.len(),
{
    lemma_tsview_len(s.subrange(0, s.len() - 1));
    if i < s.len() - 1 {
        lemma_tsview_index(s.subrange(0, s.len() - 1), i);
    }
}

/// Shapes commute with appending one token.
pub proof fn lemma_tsview_push(s: Seq<Token>, t: Token)
    ensures
        tsview(s.push(t)) == tsview(s).push(tview(t)),
{
    assert(s.push(t).subrange(0, s.len() as int) =~= s);
}

/// Structural size of a token shape, the measure evaluation recurses on.
pub open spec fn tsize(t: STok) -> nat
    decreases t,
{
    1 + tssize(t.children)
}

/// Total structural size of a sequence of token shapes.
pub open spec fn tssize(ts: Seq<STok>) -> nat
    decreases ts,
{
    if ts.len() == 0 {
        0
    } else {
        tsize(ts[0]) + tssize(ts.subrange(1, ts.len() as int))
    }
}

/// A token's size is at least one.
pub proof fn lemma_tsize_pos(t: STok)
    ensures
        tsize(t) >= 1,
{
}

/// Every token's size is bounded by its sequence's total size.
pub proof fn lemma_tssize_elem(ts: Seq<STok>, i: int)
    requires
        0 <= i < ts.len(),
    ensures
        tsize(ts[i]) <= tssize(ts),
    decreases ts.len(),
{
    if i > 0 {
        let rest = ts.subrange(1, ts.len() as int);
        lemma_tssize_elem(rest, i - 1);
        assert(rest[i - 1] == ts[i]);
    }
}

/// The three block-opening glyphs: map, fold, seeded fold.
pub open spec fn is_opener(c: char) -> bool {
    c == 'Λ' || c == '†' || c == '‡'
}

/// The single block-closing glyph.
pub open spec fn is_closer(c: char) -> bool {
    c == '°'
}

/// An open nesting frame: the opener glyph and the sibling list saved
/// when the frame was opened.
pub ghost struct SFrame {
    pub op: char,
    pub saved: Seq<STok>,
}

/// A runtime nesting frame of the tokenizer.
pub struct Frame {
    pub op: char,
    pub saved: Vec<Token>,
}

/// Closing every frame still open at end of input, innermost first (the
/// tokenizer's deliberate leniency toward unclosed blocks).
pub open spec fn drain_spec(frames: Seq<SFrame>, cur: Seq<STok>) -> Seq<STok>
    decreases frames.len(),
{
    if frames.len() == 0 {
        cur
    } else {
        let f = frames[frames.len() - 1];
        drain_spec(
            frames.subrange(0, frames.len() - 1),
            f.saved.push(STok { op: f.op, children: cur }),
        )
    }
}

/// Shape of a leaf token for one primitive operator glyph.
pub open spec fn sleaf(c: char) -> STok {
    STok { op: c, children: Seq::empty() }
}

/// The tokenizer from position `i` on, with the given open frames and
/// current sibling list: openers push a frame, the closer pops one (an
/// empty frame stack is fatal), any other glyph is a leaf, and end of
/// input closes what is left. `Ok` carries the forest and how many
/// frames end-of-input had to close.
pub open spec fn scan_spec(
    chars: Seq<char>,
    i: int,
    frames: Seq<SFrame>,
    cur: Seq<STok>,
) -> Result<(Seq<STok>, nat), ParseError>
    decreases chars.len() - i,
    when 0 <= i <= chars.len()
{
    if i == chars.len() {
        Ok((drain_spec(frames, cur), frames.len()))
    } else {
        let c = chars[i];
        if is_opener(c) {
            scan_spec(chars, i + 1, frames.push(SFrame { op: c, saved: cur }), Seq::empty())
        } else if is_closer(c) {
            if frames.len() == 0 {
                Err(ParseError::UnmatchedCloser)
            } else {
                let f = frames[frames.len() - 1];
                scan_spec(
                    chars,
                    i + 1,
                    frames.subrange(0, frames.len() - 1),
                    f.saved.push(STok { op: f.op, children: cur }),
                )
            }
        } else {
            scan_spec(chars, i + 1, frames, cur.push(sleaf(c)))
        }
    }
}

/// What tokenizing a glyph sequence yields: the forest and the number of
/// auto-closed frames, or the unmatched-closer error.
pub open spec fn tokenize_spec(chars: Seq<char>) -> Result<(Seq<STok>, nat), ParseError> {
    scan_spec(chars, 0, Seq::empty(), Seq::empty())
}

/// Shape of the tokenizer's runtime frame stack.
pub open spec fn frames_view(s: Seq<Frame>) -> Seq<SFrame>
    decreases s,
{
    if s.len() == 0 {
        Seq::empty()
    } else {
        frames_view(s.subrange(0, s.len() - 1)).push(
            SFrame { op: s[s.len() - 1].op, saved: tsview(s[s.len() - 1].saved@) },
        )
    }
}

/// Frame shapes commute with pushing one frame.
pub proof fn lemma_frames_view_push(s: Seq<Frame>, f: Frame)
    ensures
        frames_view(s.push(f)) == frames_view(s).push(SFrame { op: f.op, saved: tsview(f.saved@) }),
{
    assert(s.push(f).subrange(0, s.len() as int) =~= s);
}

/// The frame-shape sequence has the frame stack's length.
pub broadcast proof fn lemma_frames_view_len(s: Seq<Frame>)
    ensures
        (#[trigger] frames_view(s)).len() == s.len(),
    decreases s.len(),
{
    if s.len() > 0 {
        lemma_frames_view_len(s.subrange(0, s.len() - 1));
    }
}

/// A leaf token: one primitive operator glyph.
pub fn leaf_token(c: char) -> (t: Token)
    ensures
        t@ == sleaf(c),
{
    let kids: Vec<Token> = Vec::new();
    let t = Token { op: c, children: kids };
    proof {
        assert(tview(t) == STok { op: t.op, children: tsview(t.children@) });
        assert(tsview(t.children@) =~= Seq::<STok>::empty());
    }
    t
}

/// A block token: an opener glyph over its quoted child program.
pub fn block_token(op: char, children: Vec<Token>) -> (t: Token)
    ensures
        t@ == (STok { op: op, children: tsview(children@) }),
{
    let ghost cv = children@;
    let t = Token { op: op, children };
    proof {
        assert(tview(t) == STok { op: t.op, children: tsview(t.children@) });
    }
    t
}

/// Turns a glyph sequence into the forest of root tokens, or reports a
/// closer glyph that matches no opener.
pub fn tokenize(v: Vec<char>) -> (r: Result<Vec<Token>, ParseError>)
    ensures
        match tokenize_spec(v@) {
            Ok(p) => r matches Ok(toks) && tsview(toks@) == p.0,
            Err(e) => r == Err::<Vec<Token>, ParseError>(e),
        },
{
    let mut frames: Vec<Frame> = Vec::new();
    let mut cur: Vec<Token> = Vec::new();
    let mut i: usize = 0;
    while i < v.len()
        invariant
            0 <= i <= v@.len(),
            scan_spec(v@, i as int, frames_view(frames@), tsview(cur@)) == tokenize_spec(v@),
        decreases v@.len() - i,
    {
        let ghost fv0 = frames_view(frames@);
        let ghost cv0 = tsview(cur@);
        let c = v[i];
        if c == 'Λ' || c == '†' || c == '‡' {
            let ghost fseq = frames@;
            let mut fresh: Vec<Token> = Vec::new();
            core::mem::swap(&mut cur, &mut fresh);
            let fr = Frame { op: c, saved: fresh };
            frames.push(fr);
            proof {
                lemma_frames_view_push(fseq, fr);
                assert(tsview(cur@) =~= Seq::<STok>::empty());
            }
        } else if c == '°' {
            proof {
                lemma_frames_view_len(frames@);
            }
            let ghost fseq = frames@;
            match frames.pop() {
                None => {
                    proof {
                        assert(fv0.len() == 0);
                    }
                    return Err(ParseError::UnmatchedCloser);
                },
                Some(f) => {
                    let fop = f.op;
                    let mut children: Vec<Token> = f.saved;
                    core::mem::swap(&mut cur, &mut children);
                    let ghost cseq = cur@;
                    let t = block_token(fop, children);
                    cur.push(t);
                    proof {
                        assert(fv0.len() == fseq.len());
                        assert(fseq.subrange(0, fseq.len() - 1) == frames@);
                        assert(frames_view(fseq) == frames_view(frames@).push(
                            SFrame { op: fop, saved: tsview(cseq) },
                        ));
                        assert(fv0[fv0.len() - 1] == SFrame { op: fop, saved: tsview(cseq) });
                        assert(fv0.subrange(0, fv0.len() - 1) =~= frames_view(frames@));
                        lemma_tsview_push(cseq, t);
                    }
                },
            }
        } else {
            let ghost cseq = cur@;
            let t = leaf_token(c);
            proof {
                lemma_tsview_push(cseq, t);
            }
            cur.push(t);
        }
        i += 1;
    }
    while frames.len() > 0
        invariant
            tokenize_spec(v@) matches Ok(p) && p.0 == drain_spec(
                frames_view(frames@),
                tsview(cur@),
            ),
        decreases frames@.len(),
    {
        proof {
            lemma_frames_view_len(frames@);
        }
        let ghost fseq = frames@;
        let ghost fv0 = frames_view(frames@);
        match frames.pop() {
            None => {},
            Some(f) => {
                let fop = f.op;
                let mut children: Vec<Token> = f.saved;
                core::mem::swap(&mut cur, &mut children);
                let ghost cseq = cur@;
                let t = block_token(fop, children);
                cur.push(t);
                proof {
                    assert(fseq.subrange(0, fseq.len() - 1) == frames@);
                    assert(frames_view(fseq) == frames_view(frames@).push(
                        SFrame { op: fop, saved: tsview(cseq) },
                    ));
                    assert(fv0[fv0.len() - 1] == SFrame { op: fop, saved: tsview(cseq) });
                    assert(fv0.subrange(0, fv0.len() - 1) =~= frames_view(frames@));
                    lemma_tsview_push(cseq, t);
                }
            },
        }
    }
    proof {
        lemma_frames_view_len(frames@);
    }
    Ok(cur)
}

} // verus!



verus! {

/// +1 for an opener, -1 for the closer, 0 for any other glyph.
pub open spec fn glyph_delta(c: char) -> int {
    if is_opener(c) {
        1
    } else if is_closer(c) {
        -1
    } else {
        0
    }
}

/// Net opener-minus-closer count from position `i` to the end.
pub open spec fn net_depth(chars: Seq<char>, i: int) -> int
    decreases chars.len() - i,
    when 0 <= i <= chars.len()
{
    if i == chars.len() {
        0
    } else {
        glyph_delta(chars[i]) + net_depth(chars, i + 1)
    }
}

/// From position `i` on, with `d` frames already open, every closer
/// finds an open frame.
pub open spec fn closers_matched_from(chars: Seq<char>, i: int, d: int) -> bool
    decreases chars.len() - i,
    when 0 <= i <= chars.len()
{
    if i == chars.len() {
        true
    } else {
        (is_closer(chars[i]) ==> d > 0) && closers_matched_from(
            chars,
            i + 1,
            d + glyph_delta(chars[i]),
        )
    }
}

/// A glyph sequence where every closer matches an earlier opener and
/// every opener has a later matching closer.
pub open spec fn balanced(chars: Seq<char>) -> bool {
    closers_matched_from(chars, 0, 0) && net_depth(chars, 0) == 0
}

/// The scan succeeds exactly when every closer finds a frame, and then
/// leaves `frames.len() + net_depth` frames for end-of-input to close.
proof fn lemma_scan_outcome(chars: Seq<char>, i: int, frames: Seq<SFrame>, cur: Seq<STok>)
    requires
        0 <= i <= chars.len(),
    ensures
        (scan_spec(chars, i, frames, cur) is Ok) == closers_matched_from(
            chars,
            i,
            frames.len() as int,
        ),
        scan_spec(chars, i, frames, cur) matches Ok(p) ==> p.1 as int == frames.len()
            + net_depth(chars, i),
    decreases chars.len() - i,
{
    if i < chars.len() {
        let c = chars[i];
        if is_opener(c) {
            let fr2 = frames.push(SFrame { op: c, saved: cur });
            lemma_scan_outcome(chars, i + 1, fr2, Seq::empty());
            assert(scan_spec(chars, i, frames, cur) == scan_spec(chars, i + 1, fr2, Seq::empty()));
            assert(fr2.len() as int == frames.len() + glyph_delta(c));
            assert(closers_matched_from(chars, i, frames.len() as int) == closers_matched_from(
                chars,
                i + 1,
                frames.len() + glyph_delta(c),
            ));
            assert(net_depth(chars, i) == glyph_delta(c) + net_depth(chars, i + 1));
        } else if is_closer(c) {
            if frames.len() > 0 {
                let f = frames[frames.len() - 1];
                let fr2 = frames.subrange(0, frames.len() - 1);
                let cur2 = f.saved.push(STok { op: f.op, children: cur });
                lemma_scan_outcome(chars, i + 1, fr2, cur2);
                assert(scan_spec(chars, i, frames, cur) == scan_spec(chars, i + 1, fr2, cur2));
                assert(fr2.len() as int == frames.len() + glyph_delta(c));
                assert(closers_matched_from(chars, i, frames.len() as int)
                    == closers_matched_from(chars, i + 1, frames.len() + glyph_delta(c)));
                assert(net_depth(chars, i) == glyph_delta(c) + net_depth(chars, i + 1));
            } else {
                assert(scan_spec(chars, i, frames, cur) is Err);
                assert(!closers_matched_from(chars, i, frames.len() as int));
            }
        } else {
            let cur2 = cur.push(sleaf(c));
            lemma_scan_outcome(chars, i + 1, frames, cur2);
            assert(scan_spec(chars, i, frames, cur) == scan_spec(chars, i + 1, frames, cur2));
            assert(closers_matched_from(chars, i, frames.len() as int) == closers_matched_from(
                chars,
                i + 1,
                frames.len() + glyph_delta(c),
            ));
            assert(net_depth(chars, i) == glyph_delta(c) + net_depth(chars, i + 1));
        }
    }
}

/// Balance law: tokenizing a balanced glyph sequence succeeds and leaves
/// no residual open frame for the end-of-input leniency to close.
pub proof fn lemma_tokenize_balanced(chars: Seq<char>)
    requires
        balanced(chars),
    ensures
        tokenize_spec(chars) matches Ok(p) && p.1 == 0,
{
    lemma_scan_outcome(chars, 0, Seq::empty(), Seq::empty());
}

/// A closer glyph with no matching open frame is rejected as fatal.
pub proof fn lemma_tokenize_unmatched_closer(chars: Seq<char>)
    requires
        !closers_matched_from(chars, 0, 0),
    ensures
        tokenize_spec(chars) is Err,
{
    lemma_scan_outcome(chars, 0, Seq::empty(), Seq::empty());
}

} // verus!

