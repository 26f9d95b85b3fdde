use vstd::prelude::*;

verus! {

/// The fixed 256-entry glyph alphabet; a glyph's position is its byte
/// value.
pub open spec fn code_page() -> Seq<char> {
    Seq::empty()
        .push('…')
        .push('‾')
        .push('‿')
        .push('¡')
        .push('¿')
        .push('·')
        .push('∧')
        .push('∨')
        .push('≔')
        .push('§')
        .push('¶')
        .push('∀')
        .push('∃')
        .push('◯')
        .push('√')
        .push('¬')
        .push('×')
        .push('÷')
        .push('≠')
        .push('≈')
        .push('≤')
        .push('≥')
        .push('±')
        .push('⊓')
        .push('⊔')
        .push('∈')
        .push('∞')
        .push('∅')
        .push('⊆')
        .push('⊇')
        .push('∩')
        .push('∪')
        .push(' ')
        .push('!')
        .push('"')
        .push('#')
        .push('$')
        .push('%')
        .push('&')
        .push('\'')
        .push('(')
        .push(')')
        .push('*')
        .push('+')
        .push(',')
        .push('-')
        .push('.')
        .push('/')
        .push('0')
        .push('1')
        .push('2')
        .push('3')
        .push('4')
        .push('5')
        .push('6')
        .push('7')
        .push('8')
        .push('9')
        .push(':')
        .push(';')
        .push('<')
        .push('=')
        .push('>')
        .push('?')
        .push('@')
        .push('A')
        .push('B')
        .push('C')
        .push('D')
        .push('E')
        .push('F')
        .push('G')
        .push('H')
        .push('I')
        .push('J')
        .push('K')
        .push('L')
        .push('M')
        .push('N')
        .push('O')
        .push('P')
        .push('Q')
        .push('R')
        .push('S')
        .push('T')
        .push('U')
        .push('V')
        .push('W')
        .push('X')
        .push('Y')
        .push('Z')
        .push('[')
        .push('\\')
        .push(']')
        .push('^')
        .push('_')
        .push('`')
        .push('a')
        .push('b')
        .push('c')
        .push('d')
        .push('e')
        .push('f')
        .push('g')
        .push('h')
        .push('i')
        .push('j')
        .push('k')
        .push('l')
        .push('m')
        .push('n')
        .push('o')
        .push('p')
        .push('q')
        .push('r')
        .push('s')
        .push('t')
        .push('u')
        .push('v')
        .push('w')
        .push('x')
        .push('y')
        .push('z')
        .push('{')
        .push('|')
        .push('}')
        .push('~')
        .push('⌂')
        .push('⁅')
        .push('⁆')
        .push('⟦')
        .push('⟧')
        .push('⟨')
        .push('⟩')
        .push('⟪')
        .push('⟫')
        .push('⌈')
        .push('⌉')
        .push('⌊')
        .push('⌋')
        .push('⦇')
        .push('⦈')
        .push('«')
        .push('»')
        .push('™')
        .push('Ạ')
        .push('ß')
        .push('Ċ')
        .push('Ď')
        .push('Ẹ')
        .push('Ψ')
        .push('Ġ')
        .push('Ħ')
        .push('İ')
        .push('Ĵ')
        .push('Ķ')
        .push('Ŀ')
        .push('Λ')
        .push('Ŋ')
        .push('Ọ')
        .push('Þ')
        .push('Ω')
        .push('Ř')
        .push('Ŝ')
        .push('Ť')
        .push('Ụ')
        .push('Δ')
        .push('Ẅ')
        .push('Ξ')
        .push('Ỵ')
        .push('Ż')
        .push('∁')
        .push('°')
        .push('∫')
        .push('∏')
        .push('∑')
        .push('θ')
        .push('ạ')
        .push('β')
        .push('ċ')
        .push('đ')
        .push('ė')
        .push('φ')
        .push('ġ')
        .push('ħ')
        .push('ï')
        .push('ĵ')
        .push('ķ')
        .push('ŀ')
        .push('μ')
        .push('ñ')
        .push('ō')
        .push('π')
        .push('ω')
        .push('ř')
        .push('ŝ')
        .push('ŧ')
        .push('λ')
        .push('μ')
        .push('ŵ')
        .push('χ')
        .push('ÿ')
        .push('ż')
        .push('⊢')
        .push('⍨')
        .push('†')
        .push('‡')
        .push('↭')
        .push('𝔽')
        .push('ℕ')
        .push('ℚ')
        .push('𝕊')
        .push('ℤ')
        .push('⊛')
        .push('⊖')
        .push('⊗')
        .push('⊙')
        .push('⊕')
        .push('½')
        .push('¼')
        .push('¾')
        .push('↋')
        .push('↊')
        .push('૪')
        .push('₀')
        .push('₁')
        .push('₂')
        .push('₃')
        .push('₄')
        .push('₅')
        .push('₆')
        .push('₇')
        .push('₈')
        .push('₉')
        .push('→')
        .push('←')
        .push('↓')
        .push('↑')
        .push('↔')
        .push('↕')
        .push('⁰')
        .push('¹')
        .push('²')
        .push('³')
        .push('⁴')
        .push('⁵')
        .push('⁶')
        .push('⁷')
        .push('⁸')
        .push('⁹')
        .push('⇒')
        .push('⇐')
        .push('⇓')
        .push('⇑')
        .push('⇔')
        .push('⇕')
}

/// The glyph table as a runtime vector.
#[verifier::rlimit(100)]
pub fn code_page_vec() -> (v: Vec<char>)
    ensures
        v@ == code_page(),
{
    let mut v: Vec<char> = Vec::new();
    v.push('…');
    v.push('‾');
    v.push('‿');
    v.push('¡');
    v.push('¿');
    v.push('·');
    v.push('∧');
    v.push('∨');
    v.push('≔');
    v.push('§');
    v.push('¶');
    v.push('∀');
    v.push('∃');
    v.push('◯');
    v.push('√');
    v.push('¬');
    v.push('×');
    v.push('÷');
    v.push('≠');
    v.push('≈');
    v.push('≤');
    v.push('≥');
    v.push('±');
    v.push('⊓');
    v.push('⊔');
    v.push('∈');
    v.push('∞');
    v.push('∅');
    v.push('⊆');
    v.push('⊇');
    v.push('∩');
    v.push('∪');
    v.push(' ');
    v.push('!');
    v.push('"');
    v.push('#');
    v.push('$');
    v.push('%');
    v.push('&');
    v.push('\'');
    v.push('(');
    v.push(')');
    v.push('*');
    v.push('+');
    v.push(',');
    v.push('-');
    v.push('.');
    v.push('/');
    v.push('0');
    v.push('1');
    v.push('2');
    v.push('3');
    v.push('4');
    v.push('5');
    v.push('6');
    v.push('7');
    v.push('8');
    v.push('9');
    v.push(':');
    v.push(';');
    v.push('<');
    v.push('=');
    v.push('>');
    v.push('?');
    v.push('@');
    v.push('A');
    v.push('B');
    v.push('C');
    v.push('D');
    v.push('E');
    v.push('F');
    v.push('G');
    v.push('H');
    v.push('I');
    v.push('J');
    v.push('K');
    v.push('L');
    v.push('M');
    v.push('N');
    v.push('O');
    v.push('P');
    v.push('Q');
    v.push('R');
    v.push('S');
    v.push('T');
    v.push('U');
    v.push('V');
    v.push('W');
    v.push('X');
    v.push('Y');
    v.push('Z');
    v.push('[');
    v.push('\\');
    v.push(']');
    v.push('^');
    v.push('_');
    v.push('`');
    v.push('a');
    v.push('b');
    v.push('c');
    v.push('d');
    v.push('e');
    v.push('f');
    v.push('g');
    v.push('h');
    v.push('i');
    v.push('j');
    v.push('k');
    v.push('l');
    v.push('m');
    v.push('n');
    v.push('o');
    v.push('p');
    v.push('q');
    v.push('r');
    v.push('s');
    v.push('t');
    v.push('u');
    v.push('v');
    v.push('w');
    v.push('x');
    v.push('y');
    v.push('z');
    v.push('{');
    v.push('|');
    v.push('}');
    v.push('~');
    v.push('⌂');
    v.push('⁅');
    v.push('⁆');
    v.push('⟦');
    v.push('⟧');
    v.push('⟨');
    v.push('⟩');
    v.push('⟪');
    v.push('⟫');
    v.push('⌈');
    v.push('⌉');
    v.push('⌊');
    v.push('⌋');
    v.push('⦇');
    v.push('⦈');
    v.push('«');
    v.push('»');
    v.push('™');
    v.push('Ạ');
    v.push('ß');
    v.push('Ċ');
    v.push('Ď');
    v.push('Ẹ');
    v.push('Ψ');
    v.push('Ġ');
    v.push('Ħ');
    v.push('İ');
    v.push('Ĵ');
    v.push('Ķ');
    v.push('Ŀ');
    v.push('Λ');
    v.push('Ŋ');
    v.push('Ọ');
    v.push('Þ');
    v.push('Ω');
    v.push('Ř');
    v.push('Ŝ');
    v.push('Ť');
    v.push('Ụ');
    v.push('Δ');
    v.push('Ẅ');
    v.push('Ξ');
    v.push('Ỵ');
    v.push('Ż');
    v.push('∁');
    v.push('°');
    v.push('∫');
    v.push('∏');
    v.push('∑');
    v.push('θ');
    v.push('ạ');
    v.push('β');
    v.push('ċ');
    v.push('đ');
    v.push('ė');
    v.push('φ');
    v.push('ġ');
    v.push('ħ');
    v.push('ï');
    v.push('ĵ');
    v.push('ķ');
    v.push('ŀ');
    v.push('μ');
    v.push('ñ');
    v.push('ō');
    v.push('π');
    v.push('ω');
    v.push('ř');
    v.push('ŝ');
    v.push('ŧ');
    v.push('λ');
    v.push('μ');
    v.push('ŵ');
    v.push('χ');
    v.push('ÿ');
    v.push('ż');
    v.push('⊢');
    v.push('⍨');
    v.push('†');
    v.push('‡');
    v.push('↭');
    v.push('𝔽');
    v.push('ℕ');
    v.push('ℚ');
    v.push('𝕊');
    v.push('ℤ');
    v.push('⊛');
    v.push('⊖');
    v.push('⊗');
    v.push('⊙');
    v.push('⊕');
    v.push('½');
    v.push('¼');
    v.push('¾');
    v.push('↋');
    v.push('↊');
    v.push('૪');
    v.push('₀');
    v.push('₁');
    v.push('₂');
    v.push('₃');
    v.push('₄');
    v.push('₅');
    v.push('₆');
    v.push('₇');
    v.push('₈');
    v.push('₉');
    v.push('→');
    v.push('←');
    v.push('↓');
    v.push('↑');
    v.push('↔');
    v.push('↕');
    v.push('⁰');
    v.push('¹');
    v.push('²');
    v.push('³');
    v.push('⁴');
    v.push('⁵');
    v.push('⁶');
    v.push('⁷');
    v.push('⁸');
    v.push('⁹');
    v.push('⇒');
    v.push('⇐');
    v.push('⇓');
    v.push('⇑');
    v.push('⇔');
    v.push('⇕');
    proof {
        assert(v@ == code_page());
    }
    v
}

/// The table has exactly one entry per byte value.
#[verifier::rlimit(100)]
pub proof fn lemma_code_page_len()
    ensures
        code_page().len() == 256,
{
    let s0 = Seq::<char>::empty();
    assert(s0.len() == 0);
    let s1 = s0.push('…');
    assert(s1.len() == 1);
    let s2 = s1.push('‾');
    assert(s2.len() == 2);
    let s3 = s2.push('‿');
    assert(s3.len() == 3);
    let s4 = s3.push('¡');
    assert(s4.len() == 4);
    let s5 = s4.push('¿');
    assert(s5.len() == 5);
    let s6 = s5.push('·');
    assert(s6.len() == 6);
    let s7 = s6.push('∧');
    assert(s7.len() == 7);
    let s8 = s7.push('∨');
    assert(s8.len() == 8);
    let s9 = s8.push('≔');
    assert(s9.len() == 9);
    let s10 = s9.push('§');
    assert(s10.len() == 10);
    let s11 = s10.push('¶');
    assert(s11.len() == 11);
    let s12 = s11.push('∀');
    assert(s12.len() == 12);
    let s13 = s12.push('∃');
    assert(s13.len() == 13);
    let s14 = s13.push('◯');
    assert(s14.len() == 14);
    let s15 = s14.push('√');
    assert(s15.len() == 15);
    let s16 = s15.push('¬');
    assert(s16.len() == 16);
    let s17 = s16.push('×');
    assert(s17.len() == 17);
    let s18 = s17.push('÷');
    assert(s18.len() == 18);
    let s19 = s18.push('≠');
    assert(s19.len() == 19);
    let s20 = s19.push('≈');
    assert(s20.len() == 20);
    let s21 = s20.push('≤');
    assert(s21.len() == 21);
    let s22 = s21.push('≥');
    assert(s22.len() == 22);
    let s23 = s22.push('±');
    assert(s23.len() == 23);
    let s24 = s23.push('⊓');
    assert(s24.len() == 24);
    let s25 = s24.push('⊔');
    assert(s25.len() == 25);
    let s26 = s25.push('∈');
    assert(s26.len() == 26);
    let s27 = s26.push('∞');
    assert(s27.len() == 27);
    let s28 = s27.push('∅');
    assert(s28.len() == 28);
    let s29 = s28.push('⊆');
    assert(s29.len() == 29);
    let s30 = s29.push('⊇');
    assert(s30.len() == 30);
    let s31 = s30.push('∩');
    assert(s31.len() == 31);
    let s32 = s31.push('∪');
    assert(s32.len() == 32);
    let s33 = s32.push(' ');
    assert(s33.len() == 33);
    let s34 = s33.push('!');
    assert(s34.len() == 34);
    let s35 = s34.push('"');
    assert(s35.len() == 35);
    let s36 = s35.push('#');
    assert(s36.len() == 36);
    let s37 = s36.push('$');
    assert(s37.len() == 37);
    let s38 = s37.push('%');
    assert(s38.len() == 38);
    let s39 = s38.push('&');
    assert(s39.len() == 39);
    let s40 = s39.push('\'');
    assert(s40.len() == 40);
    let s41 = s40.push('(');
    assert(s41.len() == 41);
    let s42 = s41.push(')');
    assert(s42.len() == 42);
    let s43 = s42.push('*');
    assert(s43.len() == 43);
    let s44 = s43.push('+');
    assert(s44.len() == 44);
    let s45 = s44.push(',');
    assert(s45.len() == 45);
    let s46 = s45.push('-');
    assert(s46.len() == 46);
    let s47 = s46.push('.');
    assert(s47.len() == 47);
    let s48 = s47.push('/');
    assert(s48.len() == 48);
    let s49 = s48.push('0');
    assert(s49.len() == 49);
    let s50 = s49.push('1');
    assert(s50.len() == 50);
    let s51 = s50.push('2');
    assert(s51.len() == 51);
    let s52 = s51.push('3');
    assert(s52.len() == 52);
    let s53 = s52.push('4');
    assert(s53.len() == 53);
    let s54 = s53.push('5');
    assert(s54.len() == 54);
    let s55 = s54.push('6');
    assert(s55.len() == 55);
    let s56 = s55.push('7');
    assert(s56.len() == 56);
    let s57 = s56.push('8');
    assert(s57.len() == 57);
    let s58 = s57.push('9');
    assert(s58.len() == 58);
    let s59 = s58.push(':');
    assert(s59.len() == 59);
    let s60 = s59.push(';');
    assert(s60.len() == 60);
    let s61 = s60.push('<');
    assert(s61.len() == 61);
    let s62 = s61.push('=');
    assert(s62.len() == 62);
    let s63 = s62.push('>');
    assert(s63.len() == 63);
    let s64 = s63.push('?');
    assert(s64.len() == 64);
    let s65 = s64.push('@');
    assert(s65.len() == 65);
    let s66 = s65.push('A');
    assert(s66.len() == 66);
    let s67 = s66.push('B');
    assert(s67.len() == 67);
    let s68 = s67.push('C');
    assert(s68.len() == 68);
    let s69 = s68.push('D');
    assert(s69.len() == 69);
    let s70 = s69.push('E');
    assert(s70.len() == 70);
    let s71 = s70.push('F');
    assert(s71.len() == 71);
    let s72 = s71.push('G');
    assert(s72.len() == 72);
    let s73 = s72.push('H');
    assert(s73.len() == 73);
    let s74 = s73.push('I');
    assert(s74.len() == 74);
    let s75 = s74.push('J');
    assert(s75.len() == 75);
    let s76 = s75.push('K');
    assert(s76.len() == 76);
    let s77 = s76.push('L');
    assert(s77.len() == 77);
    let s78 = s77.push('M');
    assert(s78.len() == 78);
    let s79 = s78.push('N');
    assert(s79.len() == 79);
    let s80 = s79.push('O');
    assert(s80.len() == 80);
    let s81 = s80.push('P');
    assert(s81.len() == 81);
    let s82 = s81.push('Q');
    assert(s82.len() == 82);
    let s83 = s82.push('R');
    assert(s83.len() == 83);
    let s84 = s83.push('S');
    assert(s84.len() == 84);
    let s85 = s84.push('T');
    assert(s85.len() == 85);
    let s86 = s85.push('U');
    assert(s86.len() == 86);
    let s87 = s86.push('V');
    assert(s87.len() == 87);
    let s88 = s87.push('W');
    assert(s88.len() == 88);
    let s89 = s88.push('X');
    assert(s89.len() == 89);
    let s90 = s89.push('Y');
    assert(s90.len() == 90);
    let s91 = s90.push('Z');
    assert(s91.len() == 91);
    let s92 = s91.push('[');
    assert(s92.len() == 92);
    let s93 = s92.push('\\');
    assert(s93.len() == 93);
    let s94 = s93.push(']');
    assert(s94.len() == 94);
    let s95 = s94.push('^');
    assert(s95.len() == 95);
    let s96 = s95.push('_');
    assert(s96.len() == 96);
    let s97 = s96.push('`');
    assert(s97.len() == 97);
    let s98 = s97.push('a');
    assert(s98.len() == 98);
    let s99 = s98.push('b');
    assert(s99.len() == 99);
    let s100 = s99.push('c');
    assert(s100.len() == 100);
    let s101 = s100.push('d');
    assert(s101.len() == 101);
    let s102 = s101.push('e');
    assert(s102.len() == 102);
    let s103 = s102.push('f');
    assert(s103.len() == 103);
    let s104 = s103.push('g');
    assert(s104.len() == 104);
    let s105 = s104.push('h');
    assert(s105.len() == 105);
    let s106 = s105.push('i');
    assert(s106.len() == 106);
    let s107 = s106.push('j');
    assert(s107.len() == 107);
    let s108 = s107.push('k');
    assert(s108.len() == 108);
    let s109 = s108.push('l');
    assert(s109.len() == 109);
    let s110 = s109.push('m');
    assert(s110.len() == 110);
    let s111 = s110.push('n');
    assert(s111.len() == 111);
    let s112 = s111.push('o');
    assert(s112.len() == 112);
    let s113 = s112.push('p');
    assert(s113.len() == 113);
    let s114 = s113.push('q');
    assert(s114.len() == 114);
    let s115 = s114.push('r');
    assert(s115.len() == 115);
    let s116 = s115.push('s');
    assert(s116.len() == 116);
    let s117 = s116.push('t');
    assert(s117.len() == 117);
    let s118 = s117.push('u');
    assert(s118.len() == 118);
    let s119 = s118.push('v');
    assert(s119.len() == 119);
    let s120 = s119.push('w');
    assert(s120.len() == 120);
    let s121 = s120.push('x');
    assert(s121.len() == 121);
    let s122 = s121.push('y');
    assert(s122.len() == 122);
    let s123 = s122.push('z');
    assert(s123.len() == 123);
    let s124 = s123.push('{');
    assert(s124.len() == 124);
    let s125 = s124.push('|');
    assert(s125.len() == 125);
    let s126 = s125.push('}');
    assert(s126.len() == 126);
    let s127 = s126.push('~');
    assert(s127.len() == 127);
    let s128 = s127.push('⌂');
    assert(s128.len() == 128);
    let s129 = s128.push('⁅');
    assert(s129.len() == 129);
    let s130 = s129.push('⁆');
    assert(s130.len() == 130);
    let s131 = s130.push('⟦');
    assert(s131.len() == 131);
    let s132 = s131.push('⟧');
    assert(s132.len() == 132);
    let s133 = s132.push('⟨');
    assert(s133.len() == 133);
    let s134 = s133.push('⟩');
    assert(s134.len() == 134);
    let s135 = s134.push('⟪');
    assert(s135.len() == 135);
    let s136 = s135.push('⟫');
    assert(s136.len() == 136);
    let s137 = s136.push('⌈');
    assert(s137.len() == 137);
    let s138 = s137.push('⌉');
    assert(s138.len() == 138);
    let s139 = s138.push('⌊');
    assert(s139.len() == 139);
    let s140 = s139.push('⌋');
    assert(s140.len() == 140);
    let s141 = s140.push('⦇');
    assert(s141.len() == 141);
    let s142 = s141.push('⦈');
    assert(s142.len() == 142);
    let s143 = s142.push('«');
    assert(s143.len() == 143);
    let s144 = s143.push('»');
    assert(s144.len() == 144);
    let s145 = s144.push('™');
    assert(s145.len() == 145);
    let s146 = s145.push('Ạ');
    assert(s146.len() == 146);
    let s147 = s146.push('ß');
    assert(s147.len() == 147);
    let s148 = s147.push('Ċ');
    assert(s148.len() == 148);
    let s149 = s148.push('Ď');
    assert(s149.len() == 149);
    let s150 = s149.push('Ẹ');
    assert(s150.len() == 150);
    let s151 = s150.push('Ψ');
    assert(s151.len() == 151);
    let s152 = s151.push('Ġ');
    assert(s152.len() == 152);
    let s153 = s152.push('Ħ');
    assert(s153.len() == 153);
    let s154 = s153.push('İ');
    assert(s154.len() == 154);
    let s155 = s154.push('Ĵ');
    assert(s155.len() == 155);
    let s156 = s155.push('Ķ');
    assert(s156.len() == 156);
    let s157 = s156.push('Ŀ');
    assert(s157.len() == 157);
    let s158 = s157.push('Λ');
    assert(s158.len() == 158);
    let s159 = s158.push('Ŋ');
    assert(s159.len() == 159);
    let s160 = s159.push('Ọ');
    assert(s160.len() == 160);
    let s161 = s160.push('Þ');
    assert(s161.len() == 161);
    let s162 = s161.push('Ω');
    assert(s162.len() == 162);
    let s163 = s162.push('Ř');
    assert(s163.len() == 163);
    let s164 = s163.push('Ŝ');
    assert(s164.len() == 164);
    let s165 = s164.push('Ť');
    assert(s165.len() == 165);
    let s166 = s165.push('Ụ');
    assert(s166.len() == 166);
    let s167 = s166.push('Δ');
    assert(s167.len() == 167);
    let s168 = s167.push('Ẅ');
    assert(s168.len() == 168);
    let s169 = s168.push('Ξ');
    assert(s169.len() == 169);
    let s170 = s169.push('Ỵ');
    assert(s170.len() == 170);
    let s171 = s170.push('Ż');
    assert(s171.len() == 171);
    let s172 = s171.push('∁');
    assert(s172.len() == 172);
    let s173 = s172.push('°');
    assert(s173.len() == 173);
    let s174 = s173.push('∫');
    assert(s174.len() == 174);
    let s175 = s174.push('∏');
    assert(s175.len() == 175);
    let s176 = s175.push('∑');
    assert(s176.len() == 176);
    let s177 = s176.push('θ');
    assert(s177.len() == 177);
    let s178 = s177.push('ạ');
    assert(s178.len() == 178);
    let s179 = s178.push('β');
    assert(s179.len() == 179);
    let s180 = s179.push('ċ');
    assert(s180.len() == 180);
    let s181 = s180.push('đ');
    assert(s181.len() == 181);
    let s182 = s181.push('ė');
    assert(s182.len() == 182);
    let s183 = s182.push('φ');
    assert(s183.len() == 183);
    let s184 = s183.push('ġ');
    assert(s184.len() == 184);
    let s185 = s184.push('ħ');
    assert(s185.len() == 185);
    let s186 = s185.push('ï');
    assert(s186.len() == 186);
    let s187 = s186.push('ĵ');
    assert(s187.len() == 187);
    let s188 = s187.push('ķ');
    assert(s188.len() == 188);
    let s189 = s188.push('ŀ');
    assert(s189.len() == 189);
    let s190 = s189.push('μ');
    assert(s190.len() == 190);
    let s191 = s190.push('ñ');
    assert(s191.len() == 191);
    let s192 = s191.push('ō');
    assert(s192.len() == 192);
    let s193 = s192.push('π');
    assert(s193.len() == 193);
    let s194 = s193.push('ω');
    assert(s194.len() == 194);
    let s195 = s194.push('ř');
    assert(s195.len() == 195);
    let s196 = s195.push('ŝ');
    assert(s196.len() == 196);
    let s197 = s196.push('ŧ');
    assert(s197.len() == 197);
    let s198 = s197.push('λ');
    assert(s198.len() == 198);
    let s199 = s198.push('μ');
    assert(s199.len() == 199);
    let s200 = s199.push('ŵ');
    assert(s200.len() == 200);
    let s201 = s200.push('χ');
    assert(s201.len() == 201);
    let s202 = s201.push('ÿ');
    assert(s202.len() == 202);
    let s203 = s202.push('ż');
    assert(s203.len() == 203);
    let s204 = s203.push('⊢');
    assert(s204.len() == 204);
    let s205 = s204.push('⍨');
    assert(s205.len() == 205);
    let s206 = s205.push('†');
    assert(s206.len() == 206);
    let s207 = s206.push('‡');
    assert(s207.len() == 207);
    let s208 = s207.push('↭');
    assert(s208.len() == 208);
    let s209 = s208.push('𝔽');
    assert(s209.len() == 209);
    let s210 = s209.push('ℕ');
    assert(s210.len() == 210);
    let s211 = s210.push('ℚ');
    assert(s211.len() == 211);
    let s212 = s211.push('𝕊');
    assert(s212.len() == 212);
    let s213 = s212.push('ℤ');
    assert(s213.len() == 213);
    let s214 = s213.push('⊛');
    assert(s214.len() == 214);
    let s215 = s214.push('⊖');
    assert(s215.len() == 215);
    let s216 = s215.push('⊗');
    assert(s216.len() == 216);
    let s217 = s216.push('⊙');
    assert(s217.len() == 217);
    let s218 = s217.push('⊕');
    assert(s218.len() == 218);
    let s219 = s218.push('½');
    assert(s219.len() == 219);
    let s220 = s219.push('¼');
    assert(s220.len() == 220);
    let s221 = s220.push('¾');
    assert(s221.len() == 221);
    let s222 = s221.push('↋');
    assert(s222.len() == 222);
    let s223 = s222.push('↊');
    assert(s223.len() == 223);
    let s224 = s223.push('૪');
    assert(s224.len() == 224);
    let s225 = s224.push('₀');
    assert(s225.len() == 225);
    let s226 = s225.push('₁');
    assert(s226.len() == 226);
    let s227 = s226.push('₂');
    assert(s227.len() == 227);
    let s228 = s227.push('₃');
    assert(s228.len() == 228);
    let s229 = s228.push('₄');
    assert(s229.len() == 229);
    let s230 = s229.push('₅');
    assert(s230.len() == 230);
    let s231 = s230.push('₆');
    assert(s231.len() == 231);
    let s232 = s231.push('₇');
    assert(s232.len() == 232);
    let s233 = s232.push('₈');
    assert(s233.len() == 233);
    let s234 = s233.push('₉');
    assert(s234.len() == 234);
    let s235 = s234.push('→');
    assert(s235.len() == 235);
    let s236 = s235.push('←');
    assert(s236.len() == 236);
    let s237 = s236.push('↓');
    assert(s237.len() == 237);
    let s238 = s237.push('↑');
    assert(s238.len() == 238);
    let s239 = s238.push('↔');
    assert(s239.len() == 239);
    let s240 = s239.push('↕');
    assert(s240.len() == 240);
    let s241 = s240.push('⁰');
    assert(s241.len() == 241);
    let s242 = s241.push('¹');
    assert(s242.len() == 242);
    let s243 = s242.push('²');
    assert(s243.len() == 243);
    let s244 = s243.push('³');
    assert(s244.len() == 244);
    let s245 = s244.push('⁴');
    assert(s245.len() == 245);
    let s246 = s245.push('⁵');
    assert(s246.len() == 246);
    let s247 = s246.push('⁶');
    assert(s247.len() == 247);
    let s248 = s247.push('⁷');
    assert(s248.len() == 248);
    let s249 = s248.push('⁸');
    assert(s249.len() == 249);
    let s250 = s249.push('⁹');
    assert(s250.len() == 250);
    let s251 = s250.push('⇒');
    assert(s251.len() == 251);
    let s252 = s251.push('⇐');
    assert(s252.len() == 252);
    let s253 = s252.push('⇓');
    assert(s253.len() == 253);
    let s254 = s253.push('⇑');
    assert(s254.len() == 254);
    let s255 = s254.push('⇔');
    assert(s255.len() == 255);
    let s256 = s255.push('⇕');
    assert(s256.len() == 256);
    assert(code_page() == s256);
}

/// First position of `c` in `s` at or after `i`, or -1 when absent.
pub open spec fn find_from(s: Seq<char>, c: char, i: int) -> int
    decreases s.len() - i,
    when 0 <= i <= s.len()
{
    if i == s.len() {
        -1
    } else if s[i] == c {
        i
    } else {
        find_from(s, c, i + 1)
    }
}

/// The byte value of a glyph: its first position in the table, -1 when
/// it is no table glyph.
pub open spec fn glyph_index(c: char) -> int {
    find_from(code_page(), c, 0)
}

/// Whether a character is a glyph of the table.
pub open spec fn in_table(c: char) -> bool {
    glyph_index(c) >= 0
}

/// What `find_from` returns is either -1 or a position holding `c`.
pub proof fn lemma_find_found(s: Seq<char>, c: char, i: int)
    requires
        0 <= i <= s.len(),
    ensures
        find_from(s, c, i) == -1 || (i <= find_from(s, c, i) < s.len() && s[find_from(s, c, i)]
            == c),
    decreases s.len() - i,
{
    if i < s.len() && s[i] != c {
        lemma_find_found(s, c, i + 1);
    }
}

/// Decoding: a table glyph becomes its byte value, newline and tab keep
/// their code units, any other character is dropped.
pub open spec fn decode_spec(s: Seq<char>) -> Seq<u8>
    decreases s.len(),
{
    if s.len() == 0 {
        Seq::empty()
    } else {
        let rest = decode_spec(s.subrange(1, s.len() as int));
        if in_table(s[0]) {
            seq![glyph_index(s[0]) as u8] + rest
        } else if s[0] == '\n' {
            seq![10u8] + rest
        } else if s[0] == '\t' {
            seq![9u8] + rest
        } else {
            rest
        }
    }
}

/// Encoding: each byte becomes the table glyph at that position; the
/// domain is exactly the 8-bit range, so this is total.
pub open spec fn encode_spec(bs: Seq<u8>) -> Seq<char>
    decreases bs.len(),
{
    if bs.len() == 0 {
        Seq::empty()
    } else {
        seq![code_page()[bs[0] as int]] + encode_spec(bs.subrange(1, bs.len() as int))
    }
}

/// First position of `c` in the table vector, if any.
fn find_char(table: &Vec<char>, c: char) -> (r: Option<usize>)
    ensures
        match r {
            Some(j) => find_from(table@, c, 0) == j,
            None => find_from(table@, c, 0) == -1,
        },
{
    let mut i: usize = 0;
    while i < table.len()
        invariant
            0 <= i <= table@.len(),
            find_from(table@, c, 0) == find_from(table@, c, i as int),
        decreases table@.len() - i,
    {
        if table[i] == c {
            return Some(i);
        }
        i += 1;
    }
    None
}

/// Decodes source text (as characters) to the byte-coded operator
/// stream: table glyphs map to their byte value, newline and tab pass
/// through as their code units, anything else is silently dropped.
pub fn string_to_bytes(chars: &Vec<char>) -> (r: Vec<u8>)
    ensures
        r@ == decode_spec(chars@),
{
    let table = code_page_vec();
    let mut out: Vec<u8> = Vec::new();
    let mut i: usize = 0;
    proof {
        assert(chars@.subrange(0, chars@.len() as int) =~= chars@);
    }
    while i < chars.len()
        invariant
            0 <= i <= chars@.len(),
            table@ == code_page(),
            decode_spec(chars@) == out@ + decode_spec(chars@.subrange(i as int, chars@.len() as int)),
        decreases chars@.len() - i,
    {
        let ghost suffix = chars@.subrange(i as int, chars@.len() as int);
        proof {
            assert(suffix[0] == chars@[i as int]);
            assert(suffix.subrange(1, suffix.len() as int) =~= chars@.subrange(
                i as int + 1,
                chars@.len() as int,
            ));
        }
        let c = chars[i];
        match find_char(&table, c) {
            Some(j) => {
                proof {
                    lemma_find_found(table@, c, 0);
                    assert(out@ + (seq![j as u8] + decode_spec(suffix.subrange(1, suffix.len() as int)))
                        =~= (out@ + seq![j as u8]) + decode_spec(suffix.subrange(1, suffix.len() as int)));
                }
                out.push(j as u8);
            },
            None => {
                if c == '\n' {
                    proof {
                        assert(out@ + (seq![10u8] + decode_spec(suffix.subrange(1, suffix.len() as int)))
                            =~= (out@ + seq![10u8]) + decode_spec(suffix.subrange(1, suffix.len() as int)));
                    }
                    out.push(10u8);
                } else if c == '\t' {
                    proof {
                        assert(out@ + (seq![9u8] + decode_spec(suffix.subrange(1, suffix.len() as int)))
                            =~= (out@ + seq![9u8]) + decode_spec(suffix.subrange(1, suffix.len() as int)));
                    }
                    out.push(9u8);
                }
            },
        }
        i += 1;
    }
    proof {
        assert(decode_spec(chars@.subrange(chars@.len() as int, chars@.len() as int)) =~= Seq::<
            u8,
        >::empty());
        assert(out@ + Seq::<u8>::empty() =~= out@);
    }
    out
}

/// Encodes a byte sequence as glyphs: each byte 0-255 maps to the table
/// entry at that position, a total function.
pub fn bytes_to_ops(v: &Vec<u8>) -> (r: Vec<char>)
    ensures
        r@ == encode_spec(v@),
{
    let table = code_page_vec();
    let mut out: Vec<char> = Vec::new();
    let mut i: usize = 0;
    proof {
        assert(v@.subrange(0, v@.len() as int) =~= v@);
        lemma_code_page_len();
    }
    while i < v.len()
        invariant
            0 <= i <= v@.len(),
            table@ == code_page(),
            table@.len() == 256,
            encode_spec(v@) == out@ + encode_spec(v@.subrange(i as int, v@.len() as int)),
        decreases v@.len() - i,
    {
        let ghost suffix = v@.subrange(i as int, v@.len() as int);
        proof {
            assert(suffix[0] == v@[i as int]);
            assert(suffix.subrange(1, suffix.len() as int) =~= v@.subrange(
                i as int + 1,
                v@.len() as int,
            ));
        }
        let b = v[i];
        let c = table[b as usize];
        proof {
            assert(out@ + (seq![c] + encode_spec(suffix.subrange(1, suffix.len() as int))) =~= (out@
                + seq![c]) + encode_spec(suffix.subrange(1, suffix.len() as int)));
        }
        out.push(c);
        i += 1;
    }
    proof {
        assert(encode_spec(v@.subrange(v@.len() as int, v@.len() as int)) =~= Seq::<char>::empty());
        assert(out@ + Seq::<char>::empty() =~= out@);
    }
    out
}

/// Round-trip law: encoding the decoding of text made solely of table
/// glyphs gives the text back.
pub proof fn lemma_codec_round_trip(s: Seq<char>)
    requires
        forall|i: int| 0 <= i < s.len() ==> in_table(#[trigger] s[i]),
    ensures
        encode_spec(decode_spec(s)) == s,
    decreases s.len(),
{
    if s.len() == 0 {
        assert(encode_spec(decode_spec(s)) =~= s);
    } else {
        let rest = s.subrange(1, s.len() as int);
        assert(forall|i: int| 0 <= i < rest.len() ==> in_table(#[trigger] rest[i])) by {
            assert(forall|i: int| 0 <= i < rest.len() ==> rest[i] == s[i + 1]);
        }
        lemma_codec_round_trip(rest);
        assert(in_table(s[0]));
        lemma_find_found(code_page(), s[0], 0);
        lemma_code_page_len();
        let idx = glyph_index(s[0]);
        let b = idx as u8;
        let d = decode_spec(s);
        assert(d == seq![b] + decode_spec(rest));
        assert(d.len() > 0 && d[0] == b);
        assert(d.subrange(1, d.len() as int) =~= decode_spec(rest));
        assert(code_page()[b as int] == s[0]);
        assert(encode_spec(d) == seq![s[0]] + encode_spec(decode_spec(rest)));
        assert(seq![s[0]] + rest =~= s);
    }
}

} // verus!
