use oxy::atom::Atom;
use oxy::bignum::Big;
use oxy::codec::{bytes_to_ops, code_page_vec, string_to_bytes};
use oxy::eval::{dyad, DyadOp, EvalError, OxyState, Step, Tag};
use oxy::token::{leaf_token, tokenize, ParseError, Token};

fn num(n: u32) -> Atom {
    Atom::Int(Big::from_u32(n))
}

fn neg(n: u32) -> Atom {
    let b = Big::from_u32(n);
    Atom::Int(Big { neg: true, digits: b.digits })
}

fn list(v: Vec<Atom>) -> Atom {
    Atom::List(v)
}

fn leaves(ops: &str) -> Vec<Token> {
    ops.chars().map(leaf_token).collect()
}

fn run_program(ops: &str) -> Result<(Step, Vec<Atom>), EvalError> {
    let mut st = OxyState::new(leaves(ops));
    let step = st.run()?;
    Ok((step, st.stack))
}

fn run_on_stack(stack: Vec<Atom>, tokens: Vec<Token>) -> Result<(Step, Vec<Atom>), EvalError> {
    let mut st = OxyState { stack, ops: tokens };
    let step = st.run()?;
    Ok((step, st.stack))
}

#[test]
fn codec_round_trip_on_table_glyphs() {
    // every byte value, so the text holds every glyph of the alphabet
    let all: Vec<u8> = (0u8..=255).collect();
    let text = bytes_to_ops(&all);
    let bytes = string_to_bytes(&text);
    let back = bytes_to_ops(&bytes);
    assert_eq!(back, text);
}

#[test]
fn codec_decode_digit_three() {
    let text: Vec<char> = "3".chars().collect();
    let bytes = string_to_bytes(&text);
    assert_eq!(bytes, vec![51u8]);
    assert_eq!(bytes_to_ops(&bytes), vec!['3']);
}

#[test]
fn codec_newline_tab_pass_through_and_others_drop() {
    let text: Vec<char> = "3\n\t\u{0007}4".chars().collect();
    let bytes = string_to_bytes(&text);
    assert_eq!(bytes, vec![51u8, 10, 9, 52]);
}

#[test]
fn codec_duplicate_glyph_maps_to_first_position() {
    let table = code_page_vec();
    assert_eq!(table.len(), 256);
    assert_eq!(table[189], 'μ');
    assert_eq!(table[198], 'μ');
    let bytes = string_to_bytes(&vec!['μ']);
    assert_eq!(bytes, vec![189u8]);
    assert_eq!(bytes_to_ops(&vec![198u8]), vec!['μ']);
    assert_eq!(bytes_to_ops(&vec![189u8]), vec!['μ']);
}

#[test]
fn tokenizer_balanced_block() {
    let toks = tokenize("Λ12+°3".chars().collect()).unwrap();
    assert_eq!(toks.len(), 2);
    assert_eq!(toks[0].op, 'Λ');
    assert_eq!(toks[0].children.len(), 3);
    assert_eq!(toks[0].children[1].op, '2');
    assert_eq!(toks[1].op, '3');
    assert!(toks[1].children.is_empty());
}

#[test]
fn tokenizer_auto_closes_open_frames() {
    let toks = tokenize("†1".chars().collect()).unwrap();
    assert_eq!(toks.len(), 1);
    assert_eq!(toks[0].op, '†');
    assert_eq!(toks[0].children.len(), 1);
}

#[test]
fn tokenizer_rejects_lone_closer() {
    assert_eq!(
        tokenize("°".chars().collect()),
        Err(ParseError::UnmatchedCloser)
    );
}

#[test]
fn end_to_end_digit_three() {
    let bytes = string_to_bytes(&"3".chars().collect());
    let ops = bytes_to_ops(&bytes);
    let toks = tokenize(ops).unwrap();
    assert_eq!(toks.len(), 1);
    assert!(toks[0].children.is_empty());
    let mut st = OxyState::new(toks);
    assert_eq!(st.run(), Ok(Step::Go));
    assert_eq!(st.stack, vec![num(3)]);
}

#[test]
fn end_to_end_lone_closer_aborts_before_evaluation() {
    let bytes = string_to_bytes(&"°".chars().collect());
    let ops = bytes_to_ops(&bytes);
    assert_eq!(tokenize(ops), Err(ParseError::UnmatchedCloser));
}

#[test]
fn arithmetic_on_scalars() {
    assert_eq!(run_program("23+"), Ok((Step::Go, vec![num(5)])));
    assert_eq!(run_program("72-"), Ok((Step::Go, vec![num(5)])));
    assert_eq!(run_program("73×"), Ok((Step::Go, vec![num(21)])));
    assert_eq!(run_program("72÷"), Ok((Step::Go, vec![num(3)])));
}

#[test]
fn division_truncates_toward_zero() {
    // 0 7 - gives -7; then divide by 2
    assert_eq!(run_program("07-2÷"), Ok((Step::Go, vec![neg(3)])));
}

#[test]
fn subtraction_below_zero_is_negative() {
    assert_eq!(run_program("35-"), Ok((Step::Go, vec![neg(2)])));
}

#[test]
fn digit_extensions_build_multi_digit_literals() {
    assert_eq!(run_program("1₂"), Ok((Step::Go, vec![num(12)])));
    assert_eq!(run_program("1₀₀"), Ok((Step::Go, vec![num(100)])));
}

#[test]
fn arithmetic_is_arbitrary_precision() {
    // 100000 * 100000 = 10^10, which needs two base-2^32 digits
    let r = run_program("1₀₀₀₀₀1₀₀₀₀₀×").unwrap();
    assert_eq!(
        r.1,
        vec![Atom::Int(Big { neg: false, digits: vec![0x540B_E400, 2] })]
    );
}

#[test]
fn division_by_zero_is_fatal() {
    assert_eq!(run_program("10÷"), Err(EvalError::DivByZero));
}

#[test]
fn broadcast_truncates_to_shorter_list() {
    let stack = vec![
        list(vec![num(1), num(2), num(3)]),
        list(vec![num(10), num(20)]),
    ];
    let r = run_on_stack(stack, leaves("+")).unwrap();
    assert_eq!(r.1, vec![list(vec![num(11), num(22)])]);
}

#[test]
fn broadcast_applies_scalar_to_every_element() {
    let stack = vec![list(vec![num(1), num(2), num(3)]), num(5)];
    let r = run_on_stack(stack, leaves("+")).unwrap();
    assert_eq!(r.1, vec![list(vec![num(6), num(7), num(8)])]);
}

#[test]
fn broadcast_recurses_into_nested_lists() {
    let stack = vec![list(vec![list(vec![num(1), num(2)]), num(3)]), num(10)];
    let r = run_on_stack(stack, leaves("+")).unwrap();
    assert_eq!(
        r.1,
        vec![list(vec![list(vec![num(11), num(12)]), num(13)])]
    );
}

#[test]
fn dyad_mismatch_is_impossible_but_interleave_reports_tags() {
    let r = run_on_stack(vec![num(1), num(2)], leaves("↓"));
    assert_eq!(
        r,
        Err(EvalError::Mismatch { op: '↓', first: Tag::Int, second: Some(Tag::Int) })
    );
}

#[test]
fn interleave_keeps_longer_remainder() {
    let stack = vec![list(vec![num(1), num(2), num(3)]), list(vec![num(9)])];
    let r = run_on_stack(stack, leaves("↓")).unwrap();
    assert_eq!(r.1, vec![list(vec![num(1), num(9), num(2), num(3)])]);
}

#[test]
fn uninterleave_splits_even_and_odd_positions() {
    let stack = vec![list(vec![num(1), num(9), num(2), num(3)])];
    let r = run_on_stack(stack, leaves("↑")).unwrap();
    assert_eq!(
        r.1,
        vec![list(vec![num(1), num(2)]), list(vec![num(9), num(3)])]
    );
}

#[test]
fn uninterleave_rejects_scalar() {
    let r = run_on_stack(vec![num(7)], leaves("↑"));
    assert_eq!(
        r,
        Err(EvalError::Mismatch { op: '↑', first: Tag::Int, second: None })
    );
}

#[test]
fn wrap_stack_then_unwrap_restores_order() {
    let stack = vec![num(1), num(2), num(3)];
    let r = run_on_stack(stack, leaves("‾")).unwrap();
    assert_eq!(r.1, vec![list(vec![num(1), num(2), num(3)])]);
    let r2 = run_on_stack(r.1, leaves("…")).unwrap();
    assert_eq!(r2.1, vec![num(1), num(2), num(3)]);
}

#[test]
fn unwrap_rejects_scalar() {
    let r = run_on_stack(vec![num(7)], leaves("…"));
    assert_eq!(
        r,
        Err(EvalError::Mismatch { op: '…', first: Tag::Int, second: None })
    );
}

#[test]
fn singleton_pair_and_swap() {
    assert_eq!(
        run_program("3¡"),
        Ok((Step::Go, vec![list(vec![num(3)])]))
    );
    assert_eq!(
        run_program("12‿"),
        Ok((Step::Go, vec![list(vec![num(1), num(2)])]))
    );
    assert_eq!(run_program("12⍨"), Ok((Step::Go, vec![num(2), num(1)])));
}

#[test]
fn concatenate_covers_all_shape_cases() {
    let ll = run_on_stack(
        vec![list(vec![num(1)]), list(vec![num(2)])],
        leaves("c"),
    )
    .unwrap();
    assert_eq!(ll.1, vec![list(vec![num(1), num(2)])]);
    let ls = run_on_stack(vec![list(vec![num(1)]), num(2)], leaves("c")).unwrap();
    assert_eq!(ls.1, vec![list(vec![num(1), num(2)])]);
    let sl = run_on_stack(vec![num(1), list(vec![num(2)])], leaves("c")).unwrap();
    assert_eq!(sl.1, vec![list(vec![num(1), num(2)])]);
    let ss = run_on_stack(vec![num(1), num(2)], leaves("c")).unwrap();
    assert_eq!(ss.1, vec![list(vec![num(1), num(2)])]);
}

#[test]
fn range_builds_ascending_inclusive_list() {
    assert_eq!(
        run_program("4r"),
        Ok((Step::Go, vec![list(vec![num(1), num(2), num(3), num(4)])]))
    );
    assert_eq!(run_program("0r"), Ok((Step::Go, vec![list(vec![])])));
}

#[test]
fn range_rejects_list_operand() {
    let r = run_on_stack(vec![list(vec![num(1)])], leaves("r"));
    assert_eq!(
        r,
        Err(EvalError::Mismatch { op: 'r', first: Tag::List, second: None })
    );
}

#[test]
fn map_runs_block_per_element() {
    // map (+1) over [1,2,3]
    let toks = tokenize("Λ1+°".chars().collect()).unwrap();
    let r = run_on_stack(vec![list(vec![num(1), num(2), num(3)])], toks).unwrap();
    assert_eq!(r.1, vec![list(vec![num(2), num(3), num(4)])]);
}

#[test]
fn map_rejects_scalar() {
    let toks = tokenize("Λ1+°".chars().collect()).unwrap();
    let r = run_on_stack(vec![num(5)], toks);
    assert_eq!(
        r,
        Err(EvalError::Mismatch { op: 'Λ', first: Tag::Int, second: None })
    );
}

#[test]
fn fold_add_over_one_to_four_is_ten() {
    let toks = tokenize("4r†+°".chars().collect()).unwrap();
    let r = run_on_stack(vec![], toks).unwrap();
    assert_eq!(r.1, vec![num(10)]);
}

#[test]
fn fold_of_single_element_is_that_element() {
    let toks = tokenize("†+°".chars().collect()).unwrap();
    let r = run_on_stack(vec![list(vec![num(7)])], toks).unwrap();
    assert_eq!(r.1, vec![num(7)]);
}

#[test]
fn fold_of_empty_list_is_fatal() {
    let toks = tokenize("†+°".chars().collect()).unwrap();
    let r = run_on_stack(vec![list(vec![])], toks);
    assert_eq!(r, Err(EvalError::EmptyFold));
}

#[test]
fn seeded_fold_of_empty_list_yields_seed() {
    let toks = tokenize("‡+°".chars().collect()).unwrap();
    let r = run_on_stack(vec![list(vec![]), num(0)], toks).unwrap();
    assert_eq!(r.1, vec![num(0)]);
}

#[test]
fn seeded_fold_accumulates_from_seed() {
    let toks = tokenize("4r5‡+°".chars().collect()).unwrap();
    let r = run_on_stack(vec![], toks).unwrap();
    assert_eq!(r.1, vec![num(15)]);
}

#[test]
fn seeded_fold_rejects_scalar_below_seed() {
    let toks = tokenize("‡+°".chars().collect()).unwrap();
    let r = run_on_stack(vec![num(1), num(0)], toks);
    assert_eq!(
        r,
        Err(EvalError::Mismatch { op: '‡', first: Tag::Int, second: Some(Tag::Int) })
    );
}

#[test]
fn exit_halts_and_abandons_rest() {
    let mut st = OxyState::new(leaves("3·4"));
    assert_eq!(st.run(), Ok(Step::Halt));
    assert_eq!(st.stack, vec![num(3)]);
}

#[test]
fn empty_stack_pop_yields_sentinel() {
    assert_eq!(
        run_program("¡"),
        Ok((Step::Go, vec![list(vec![num(42)])]))
    );
}

#[test]
fn unrecognized_glyph_is_a_no_op() {
    assert_eq!(run_program("3∞4"), Ok((Step::Go, vec![num(3), num(4)])));
}

#[test]
fn dyad_exposes_broadcast_directly() {
    let a = list(vec![num(4), num(6)]);
    let b = num(2);
    let r = dyad(DyadOp::Div, &a, &b).unwrap();
    assert_eq!(r, list(vec![num(2), num(3)]));
}
