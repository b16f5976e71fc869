//! Hex and `rgb()`/`rgba()` colour literals: reading their channels and
//! writing new channels back in the literal's own notation.
use vstd::prelude::*;

use crate::patterns::{
    hex_len, rgb_e1, rgb_e2, rgb_e3, rgb_e4, rgb_has_alpha, rgb_open, rgb_open_exec, rgb_w1,
    rgb_w2, rgb_w3, Pattern,
};
use crate::text::{
    char_at_exec, chars_of, has_at, int_spans, lemma_run_end_bounds, lemma_scan_ok, push_range, push_str,
    scan, scan_exec, skip_run, splice, splice_exec, string_of, CharClass,
};

verus! {

/// The three channels of a colour.
#[derive(Clone, Copy, PartialEq, Eq, Structural, Debug)]
pub struct Rgb {
    pub r: u8,
    pub g: u8,
    pub b: u8,
}

pub open spec fn hex_value(c: char) -> int {
    if '0' <= c && c <= '9' {
        c as int - '0' as int
    } else if 'a' <= c && c <= 'f' {
        c as int - 'a' as int + 10
    } else if 'A' <= c && c <= 'F' {
        c as int - 'A' as int + 10
    } else {
        0
    }
}

pub open spec fn hex_chars() -> Seq<char> {
    seq!['0', '1', '2', '3', '4', '5', '6', '7', '8', '9', 'a', 'b', 'c', 'd', 'e', 'f']
}

pub open spec fn decimal_chars() -> Seq<char> {
    seq!['0', '1', '2', '3', '4', '5', '6', '7', '8', '9']
}

/// The channel written by the two hex digits at `j`.
pub open spec fn hex_pair(s: Seq<char>, j: int) -> u8 {
    (16 * hex_value(s[j]) + hex_value(s[j + 1])) as u8
}

/// The channel written by the one hex digit at `j`, doubled.
pub open spec fn hex_single(s: Seq<char>, j: int) -> u8 {
    (17 * hex_value(s[j])) as u8
}

/// The colour of the hex literal at `i`.
pub open spec fn hex_color_at(s: Seq<char>, i: int) -> Rgb {
    if hex_len(s, i) == 7 {
        Rgb { r: hex_pair(s, i + 1), g: hex_pair(s, i + 3), b: hex_pair(s, i + 5) }
    } else {
        Rgb { r: hex_single(s, i + 1), g: hex_single(s, i + 2), b: hex_single(s, i + 3) }
    }
}

/// `#` and each channel as two lower-case hex digits.
pub open spec fn hex_text(c: Rgb) -> Seq<char> {
    seq![
        '#',
        hex_chars()[c.r as int / 16],
        hex_chars()[c.r as int % 16],
        hex_chars()[c.g as int / 16],
        hex_chars()[c.g as int % 16],
        hex_chars()[c.b as int / 16],
        hex_chars()[c.b as int % 16],
    ]
}

/// The decimal digits of `n`, without leading zeros.
pub open spec fn decimal(n: nat) -> Seq<char>
    decreases n,
{
    if n < 10 {
        seq![decimal_chars()[n as int]]
    } else {
        decimal(n / 10).push(decimal_chars()[(n % 10) as int])
    }
}

/// The number written by the decimal digits of `s` between `a` and `b`.
pub open spec fn digits_value(s: Seq<char>, a: int, b: int) -> nat
    decreases b - a,
{
    if b <= a {
        0
    } else {
        digits_value(s, a, b - 1) * 10 + (s[b - 1] as int - '0' as int) as nat
    }
}

/// A channel read from decimal digits: its value where that fits in eight
/// bits, else 0.
pub open spec fn channel_of(s: Seq<char>, a: int, b: int) -> u8 {
    if digits_value(s, a, b) <= 255 {
        digits_value(s, a, b) as u8
    } else {
        0
    }
}

/// The colour of the `rgb()`/`rgba()` literal at `i`.
pub open spec fn rgb_color_at(s: Seq<char>, i: int) -> Rgb {
    Rgb {
        r: channel_of(s, rgb_open(s, i), rgb_e1(s, i)),
        g: channel_of(s, rgb_w1(s, i), rgb_e2(s, i)),
        b: channel_of(s, rgb_w2(s, i), rgb_e3(s, i)),
    }
}

/// The function name of the literal at `i`, with its parenthesis.
pub open spec fn rgb_name(s: Seq<char>, i: int) -> Seq<char> {
    if rgb_open(s, i) == i + 5 {
        "rgba("@
    } else {
        "rgb("@
    }
}

/// The literal at `i` rewritten with channels `c`: same function name, the
/// channels in decimal separated by `, `, the alpha as it was.
pub open spec fn rgb_text(s: Seq<char>, i: int, c: Rgb) -> Seq<char> {
    let name = rgb_name(s, i);
    let alpha = if rgb_has_alpha(s, i) {
        ", "@ + s.subrange(rgb_w3(s, i), rgb_e4(s, i))
    } else {
        Seq::empty()
    };
    name + decimal(c.r as nat) + ", "@ + decimal(c.g as nat) + ", "@ + decimal(c.b as nat) + alpha
        + ")"@
}

/// The colours of the hex literals of `s`, left to right.
pub open spec fn hex_colors(s: Seq<char>) -> Seq<Rgb> {
    let sp = scan(Pattern::HexColor, s, 0);
    Seq::new(sp.len(), |k: int| hex_color_at(s, sp[k].0))
}

/// `s` with the `k`-th hex literal rewritten to `new[k]`.
pub open spec fn hex_replaced(s: Seq<char>, new: Seq<Rgb>) -> Seq<char> {
    let sp = scan(Pattern::HexColor, s, 0);
    splice(s, 0, sp, Seq::new(sp.len(), |k: int| hex_text(new[k])), 0)
}

/// The colours of the `rgb()`/`rgba()` literals of `s`, left to right.
pub open spec fn rgb_colors(s: Seq<char>) -> Seq<Rgb> {
    let sp = scan(Pattern::RgbColor, s, 0);
    Seq::new(sp.len(), |k: int| rgb_color_at(s, sp[k].0))
}

/// `s` with the `k`-th `rgb()`/`rgba()` literal rewritten to `new[k]`.
pub open spec fn rgb_replaced(s: Seq<char>, new: Seq<Rgb>) -> Seq<char> {
    let sp = scan(Pattern::RgbColor, s, 0);
    splice(s, 0, sp, Seq::new(sp.len(), |k: int| rgb_text(s, sp[k].0, new[k])), 0)
}

fn hex_value_exec(c: char) -> (r: u8)
    ensures
        r as int == hex_value(c),
        r < 16,
{
    if '0' <= c && c <= '9' {
        (c as u32 - '0' as u32) as u8
    } else if 'a' <= c && c <= 'f' {
        (c as u32 - 'a' as u32 + 10) as u8
    } else if 'A' <= c && c <= 'F' {
        (c as u32 - 'A' as u32 + 10) as u8
    } else {
        0
    }
}

fn hex_char(n: u8) -> (c: char)
    requires
        n < 16,
    ensures
        c == hex_chars()[n as int],
{
    let digits: [char; 16] = [
        '0', '1', '2', '3', '4', '5', '6', '7', '8', '9', 'a', 'b', 'c', 'd', 'e', 'f',
    ];
    assert(digits@ =~= hex_chars());
    digits[n as usize]
}

fn decimal_char(n: u64) -> (c: char)
    requires
        n < 10,
    ensures
        c == decimal_chars()[n as int],
{
    let digits: [char; 10] = ['0', '1', '2', '3', '4', '5', '6', '7', '8', '9'];
    assert(digits@ =~= decimal_chars());
    digits[n as usize]
}

/// Appends the decimal digits of `n`.
pub fn push_decimal(out: &mut Vec<char>, n: u64)
    ensures
        final(out)@ == old(out)@ + decimal(n as nat),
    decreases n,
{
    if n >= 10 {
        push_decimal(out, n / 10);
    }
    out.push(decimal_char(n % 10));
    assert(final(out)@ =~= old(out)@ + decimal(n as nat));
}

fn hex_color_exec(s: &Vec<char>, i: usize, n: usize) -> (c: Rgb)
    requires
        n == hex_len(s@, i as int),
        n > 0,
        i + n <= s@.len(),
    ensures
        c == hex_color_at(s@, i as int),
{
    let len = s.len();
    if n == 7 {
        Rgb {
            r: 16 * hex_value_exec(s[i + 1]) + hex_value_exec(s[i + 2]),
            g: 16 * hex_value_exec(s[i + 3]) + hex_value_exec(s[i + 4]),
            b: 16 * hex_value_exec(s[i + 5]) + hex_value_exec(s[i + 6]),
        }
    } else {
        Rgb {
            r: 17 * hex_value_exec(s[i + 1]),
            g: 17 * hex_value_exec(s[i + 2]),
            b: 17 * hex_value_exec(s[i + 3]),
        }
    }
}

fn hex_text_exec(c: Rgb) -> (r: Vec<char>)
    ensures
        r@ == hex_text(c),
{
    let mut r: Vec<char> = Vec::new();
    r.push('#');
    r.push(hex_char(c.r / 16));
    r.push(hex_char(c.r % 16));
    r.push(hex_char(c.g / 16));
    r.push(hex_char(c.g % 16));
    r.push(hex_char(c.b / 16));
    r.push(hex_char(c.b % 16));
    assert(r@ =~= hex_text(c));
    r
}

/// Reads the channel written by the digits between `a` and `b`.
fn parse_channel(s: &Vec<char>, a: usize, b: usize) -> (r: u8)
    requires
        a <= b <= s@.len(),
        forall|m: int| a <= m < b ==> '0' <= #[trigger] s@[m] && s@[m] <= '9',
    ensures
        r == channel_of(s@, a as int, b as int),
{
    let mut acc: u32 = 0;
    let mut k: usize = a;
    while k < b
        invariant
            a <= k <= b <= s@.len(),
            forall|m: int| a <= m < b ==> '0' <= #[trigger] s@[m] && s@[m] <= '9',
            acc as nat == if digits_value(s@, a as int, k as int) <= 256 {
                digits_value(s@, a as int, k as int)
            } else {
                256
            },
        decreases b - k,
    {
        let d: u32 = s[k] as u32 - '0' as u32;
        let ghost v = digits_value(s@, a as int, k as int);
        assert(digits_value(s@, a as int, k + 1) == v * 10 + d);
        if acc * 10 + d >= 256 {
            assert(v * 10 + d >= 256) by (nonlinear_arith)
                requires
                    acc as nat == if v <= 256 { v } else { 256 },
                    acc * 10 + d >= 256,
            ;
            acc = 256;
        } else {
            acc = acc * 10 + d;
        }
        k = k + 1;
    }
    if acc <= 255 {
        acc as u8
    } else {
        0
    }
}

fn rgb_color_exec(s: &Vec<char>, i: usize) -> (c: Rgb)
    requires
        crate::patterns::rgb_len(s@, i as int) > 0,
    ensures
        c == rgb_color_at(s@, i as int),
{
    let o = rgb_open_exec(s, i).unwrap();
    let e1 = skip_run(s, o, CharClass::Digit);
    let w1 = skip_run(s, e1 + 1, CharClass::Space);
    let e2 = skip_run(s, w1, CharClass::Digit);
    let w2 = skip_run(s, e2 + 1, CharClass::Space);
    let e3 = skip_run(s, w2, CharClass::Digit);
    proof {
        lemma_run_end_bounds(s@, o as int, CharClass::Digit);
        lemma_run_end_bounds(s@, w1 as int, CharClass::Digit);
        lemma_run_end_bounds(s@, w2 as int, CharClass::Digit);
    }
    Rgb { r: parse_channel(s, o, e1), g: parse_channel(s, w1, e2), b: parse_channel(s, w2, e3) }
}

fn rgb_text_exec(s: &Vec<char>, i: usize, c: Rgb) -> (r: Vec<char>)
    requires
        crate::patterns::rgb_len(s@, i as int) > 0,
    ensures
        r@ == rgb_text(s@, i as int, c),
{
    let o = rgb_open_exec(s, i).unwrap();
    let mut r: Vec<char> = Vec::new();
    if o - i == 5 {
        push_str(&mut r, "rgba(");
    } else {
        push_str(&mut r, "rgb(");
    }
    push_decimal(&mut r, c.r as u64);
    push_str(&mut r, ", ");
    push_decimal(&mut r, c.g as u64);
    push_str(&mut r, ", ");
    push_decimal(&mut r, c.b as u64);
    let e1 = skip_run(s, o, CharClass::Digit);
    let w1 = skip_run(s, e1 + 1, CharClass::Space);
    let e2 = skip_run(s, w1, CharClass::Digit);
    let w2 = skip_run(s, e2 + 1, CharClass::Space);
    let e3 = skip_run(s, w2, CharClass::Digit);
    let ghost before = r@;
    if char_at_exec(s, e3, ',') {
        let w3 = skip_run(s, e3 + 1, CharClass::Space);
        let e4 = skip_run(s, w3, CharClass::DigitOrDot);
        if e4 > w3 && char_at_exec(s, e4, ')') {
            push_str(&mut r, ", ");
            push_range(&mut r, s, w3, e4);
            assert(r@ =~= before + (", "@ + s@.subrange(w3 as int, e4 as int)));
        }
    } else {
        assert(r@ =~= before + Seq::<char>::empty());
    }
    push_str(&mut r, ")");
    r
}

/// The colours of the hex literals of `text` (`#rgb` or `#rrggbb`, ended by a
/// word boundary), left to right; a three-digit literal has each digit doubled.
pub fn find_hex_colors(text: &str) -> (r: Vec<Rgb>)
    ensures
        r@ == hex_colors(text@),
{
    let s = chars_of(text);
    let sp = scan_exec(Pattern::HexColor, &s);
    let ghost isp = int_spans(sp@);
    let mut r: Vec<Rgb> = Vec::new();
    let mut k: usize = 0;
    while k < sp.len()
        invariant
            k <= sp@.len(),
            isp == int_spans(sp@),
            isp == scan(Pattern::HexColor, s@, 0),
            r@.len() == k,
            forall|m: int| 0 <= m < k ==> #[trigger] r@[m] == hex_color_at(s@, isp[m].0),
        decreases sp@.len() - k,
    {
        proof {
            lemma_scan_ok(Pattern::HexColor, s@, 0);
        }
        let (a, b) = sp[k];
        assert(isp[k as int] == (a as int, b as int));
        r.push(hex_color_exec(&s, a, b - a));
        k = k + 1;
    }
    assert(r@ =~= hex_colors(text@));
    r
}

/// `text` with the `k`-th hex literal rewritten to `#rrggbb` (lower case) of
/// `new[k]`.
pub fn replace_hex_colors(text: &str, new: &Vec<Rgb>) -> (r: String)
    requires
        new@.len() == hex_colors(text@).len(),
    ensures
        r@ == hex_replaced(text@, new@),
{
    let s = chars_of(text);
    let sp = scan_exec(Pattern::HexColor, &s);
    let ghost isp = int_spans(sp@);
    let mut reps: Vec<Vec<char>> = Vec::new();
    let mut k: usize = 0;
    while k < sp.len()
        invariant
            k <= sp@.len(),
            isp == int_spans(sp@),
            isp == scan(Pattern::HexColor, s@, 0),
            new@.len() == isp.len(),
            reps@.len() == k,
            forall|m: int| 0 <= m < k ==> #[trigger] reps@[m]@ == hex_text(new@[m]),
        decreases sp@.len() - k,
    {
        reps.push(hex_text_exec(new[k]));
        k = k + 1;
    }
    proof {
        lemma_scan_ok(Pattern::HexColor, s@, 0);
    }
    let out = splice_exec(&s, &sp, &reps);
    assert(reps@.map_values(|v: Vec<char>| v@) =~= Seq::new(
        isp.len(),
        |m: int| hex_text(new@[m]),
    ));
    string_of(&out)
}

/// The channels of the `rgb(r, g, b)` and `rgba(r, g, b, a)` literals of
/// `text`, left to right; a channel over 255 reads as 0.
pub fn find_rgb_colors(text: &str) -> (r: Vec<Rgb>)
    ensures
        r@ == rgb_colors(text@),
{
    let s = chars_of(text);
    let sp = scan_exec(Pattern::RgbColor, &s);
    let ghost isp = int_spans(sp@);
    let mut r: Vec<Rgb> = Vec::new();
    let mut k: usize = 0;
    while k < sp.len()
        invariant
            k <= sp@.len(),
            isp == int_spans(sp@),
            isp == scan(Pattern::RgbColor, s@, 0),
            r@.len() == k,
            forall|m: int| 0 <= m < k ==> #[trigger] r@[m] == rgb_color_at(s@, isp[m].0),
        decreases sp@.len() - k,
    {
        proof {
            lemma_scan_ok(Pattern::RgbColor, s@, 0);
        }
        let (a, b) = sp[k];
        assert(isp[k as int] == (a as int, b as int));
        r.push(rgb_color_exec(&s, a));
        k = k + 1;
    }
    assert(r@ =~= rgb_colors(text@));
    r
}

/// `text` with the `k`-th `rgb()`/`rgba()` literal rewritten with the
/// channels of `new[k]`, keeping its function name and alpha.
pub fn replace_rgb_colors(text: &str, new: &Vec<Rgb>) -> (r: String)
    requires
        new@.len() == rgb_colors(text@).len(),
    ensures
        r@ == rgb_replaced(text@, new@),
{
    let s = chars_of(text);
    let sp = scan_exec(Pattern::RgbColor, &s);
    let ghost isp = int_spans(sp@);
    let mut reps: Vec<Vec<char>> = Vec::new();
    let mut k: usize = 0;
    while k < sp.len()
        invariant
            k <= sp@.len(),
            isp == int_spans(sp@),
            isp == scan(Pattern::RgbColor, s@, 0),
            new@.len() == isp.len(),
            reps@.len() == k,
            forall|m: int| 0 <= m < k ==> #[trigger] reps@[m]@ == rgb_text(s@, isp[m].0, new@[m]),
        decreases sp@.len() - k,
    {
        proof {
            lemma_scan_ok(Pattern::RgbColor, s@, 0);
        }
        let (a, b) = sp[k];
        assert(isp[k as int] == (a as int, b as int));
        reps.push(rgb_text_exec(&s, a, new[k]));
        k = k + 1;
    }
    proof {
        lemma_scan_ok(Pattern::RgbColor, s@, 0);
    }
    let out = splice_exec(&s, &sp, &reps);
    assert(reps@.map_values(|v: Vec<char>| v@) =~= Seq::new(
        isp.len(),
        |m: int| rgb_text(s@, isp[m].0, new@[m]),
    ));
    string_of(&out)
}

/// Every `rgb()`/`rgba()` literal and its replacement open with the same
/// function name, whatever the new channels: the name is never altered.
pub proof fn lemma_rgb_name_kept(s: Seq<char>, k: int, c: Rgb)
    requires
        0 <= k < rgb_colors(s).len(),
    ensures
        ({
            let i = scan(Pattern::RgbColor, s, 0)[k].0;
            &&& has_at(s, i, rgb_name(s, i))
            &&& has_at(rgb_text(s, i, c), 0, rgb_name(s, i))
        }),
{
    let i = scan(Pattern::RgbColor, s, 0)[k].0;
    lemma_scan_ok(Pattern::RgbColor, s, 0);
    reveal_strlit("rgb(");
    reveal_strlit("rgba(");
    let name = rgb_name(s, i);
    let t = rgb_text(s, i, c);
    assert(t.subrange(0, name.len() as int) =~= name);
}

proof fn lemma_digits_value_prefix(s: Seq<char>, x: char, b: int)
    requires
        0 <= b <= s.len(),
    ensures
        digits_value(s.push(x), 0, b) == digits_value(s, 0, b),
    decreases b,
{
    if b > 0 {
        lemma_digits_value_prefix(s, x, b - 1);
    }
}

/// The decimal digits written for `n` read back as `n`.
pub proof fn lemma_decimal_reads_back(n: nat)
    ensures
        digits_value(decimal(n), 0, decimal(n).len() as int) == n,
        forall|m: int| 0 <= m < decimal(n).len() ==> '0' <= #[trigger] decimal(n)[m] <= '9',
    decreases n,
{
    if n >= 10 {
        lemma_decimal_reads_back(n / 10);
        let p = decimal(n / 10);
        let d = decimal_chars()[(n % 10) as int];
        lemma_digits_value_prefix(p, d, p.len() as int);
        assert(decimal(n)[p.len() as int] == d);
        assert(d as int - '0' as int == n % 10);
        assert(decimal(n) == p.push(d));
        let l = decimal(n).len() as int;
        assert(digits_value(decimal(n), 0, l) == digits_value(decimal(n), 0, l - 1) * 10 + (
        decimal(n)[l - 1] as int - '0' as int) as nat);
        assert(l - 1 == p.len());
        assert(digits_value(decimal(n), 0, l - 1) == n / 10);
        assert((n / 10) * 10 + n % 10 == n) by (nonlinear_arith);
        assert forall|m: int| 0 <= m < decimal(n).len() implies '0' <= #[trigger] decimal(n)[m]
            <= '9' by {
            if m < p.len() {
                assert(decimal(n)[m] == p[m]);
            }
        }
    } else {
        assert(decimal_chars()[n as int] as int - '0' as int == n);
        assert(decimal(n).len() == 1);
        assert(digits_value(decimal(n), 0, 0) == 0);
        assert(digits_value(decimal(n), 0, 1) == (decimal(n)[0] as int - '0' as int) as nat);
    }
}

proof fn lemma_hex_char_value(d: int)
    requires
        0 <= d < 16,
    ensures
        hex_value(hex_chars()[d]) == d,
{
}

/// Every channel that a rewrite writes is a value from 0 to 255: the two
/// hex digits of a hex literal, and the decimal digits of an `rgb()`
/// literal, read back as the channel that was handed in.
pub proof fn lemma_channels_read_back(c: Rgb)
    ensures
        hex_pair(hex_text(c), 1) == c.r,
        hex_pair(hex_text(c), 3) == c.g,
        hex_pair(hex_text(c), 5) == c.b,
        digits_value(decimal(c.r as nat), 0, decimal(c.r as nat).len() as int) == c.r,
        digits_value(decimal(c.g as nat), 0, decimal(c.g as nat).len() as int) == c.g,
        digits_value(decimal(c.b as nat), 0, decimal(c.b as nat).len() as int) == c.b,
        0 <= c.r <= 255 && 0 <= c.g <= 255 && 0 <= c.b <= 255,
{
    lemma_hex_char_value(c.r as int / 16);
    lemma_hex_char_value(c.r as int % 16);
    lemma_hex_char_value(c.g as int / 16);
    lemma_hex_char_value(c.g as int % 16);
    lemma_hex_char_value(c.b as int / 16);
    lemma_hex_char_value(c.b as int % 16);
    lemma_decimal_reads_back(c.r as nat);
    lemma_decimal_reads_back(c.g as nat);
    lemma_decimal_reads_back(c.b as nat);
}

} // verus!
