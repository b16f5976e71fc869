//! Size literals: a decimal number directly followed by a unit.
use vstd::prelude::*;

use crate::colors::{decimal, decimal_chars, digits_value, lemma_decimal_reads_back, push_decimal};
use crate::patterns::{size_num_end, size_num_end_exec, unit_at, unit_at_exec, unit_text, unit_text_exec, Pattern, Unit};
use crate::text::{
    char_at, chars_of, has_at, int_spans, lemma_run_end_bounds, run_end, CharClass, lemma_scan_ok, push_range, push_str, scan, scan_exec, splice, splice_exec,
    string_of,
};

verus! {

/// A size literal as found: the text of its number and its unit.
#[derive(Clone, Debug)]
pub struct SizeLiteral {
    pub number: String,
    pub unit: Unit,
}

/// A value given in hundredths, written with exactly two decimals.
pub open spec fn fixed2(h: nat) -> Seq<char> {
    decimal(h / 100) + seq!['.', decimal_chars()[((h % 100) / 10) as int], decimal_chars()[(h % 10) as int]]
}

/// The number's text of the size literal at `i`.
pub open spec fn size_number_at(s: Seq<char>, i: int) -> Seq<char> {
    s.subrange(i, size_num_end(s, i))
}

/// The unit of the size literal at `i`.
pub open spec fn size_unit_at(s: Seq<char>, i: int) -> Unit {
    unit_at(s, size_num_end(s, i))->0
}

/// The size literals of `s`, left to right, as (number text, unit).
pub open spec fn sizes_of(s: Seq<char>) -> Seq<(Seq<char>, Unit)> {
    let sp = scan(Pattern::Size, s, 0);
    Seq::new(sp.len(), |k: int| (size_number_at(s, sp[k].0), size_unit_at(s, sp[k].0)))
}

/// `s` with the `k`-th size literal rewritten to `new[k]` hundredths, with
/// two decimals and its own unit.
pub open spec fn sizes_replaced(s: Seq<char>, new: Seq<u64>) -> Seq<char> {
    let sp = scan(Pattern::Size, s, 0);
    splice(
        s,
        0,
        sp,
        Seq::new(sp.len(), |k: int| fixed2(new[k] as nat) + unit_text(size_unit_at(s, sp[k].0))),
        0,
    )
}

/// The upper end, exclusive, of the range from which an unrestricted random
/// size with unit `u` is drawn; the lower end is 0.
pub open spec fn unrestricted_limit_spec(u: Unit) -> u32 {
    match u {
        Unit::Px | Unit::Pt => 500,
        Unit::Em | Unit::Rem => 10,
        Unit::Percent => 200,
        Unit::Vh | Unit::Vw => 150,
    }
}

pub fn unrestricted_limit(u: Unit) -> (r: u32)
    ensures
        r == unrestricted_limit_spec(u),
{
    match u {
        Unit::Px | Unit::Pt => 500,
        Unit::Em | Unit::Rem => 10,
        Unit::Percent => 200,
        Unit::Vh | Unit::Vw => 150,
    }
}

/// Appends `h` hundredths written with two decimals.
pub fn push_fixed2(out: &mut Vec<char>, h: u64)
    ensures
        final(out)@ == old(out)@ + fixed2(h as nat),
{
    push_decimal(out, h / 100);
    out.push('.');
    push_decimal(out, (h % 100) / 10);
    push_decimal(out, h % 10);
    assert(decimal(((h % 100) / 10) as nat) =~= seq![decimal_chars()[((h % 100) / 10) as int]]);
    assert(decimal((h % 10) as nat) =~= seq![decimal_chars()[(h % 10) as int]]);
    assert(final(out)@ =~= old(out)@ + fixed2(h as nat));
}

/// The size literals of `text`, left to right.
pub fn find_sizes(text: &str) -> (r: Vec<SizeLiteral>)
    ensures
        r@.len() == sizes_of(text@).len(),
        forall|k: int|
            0 <= k < r@.len() ==> (#[trigger] r@[k]).number@ == sizes_of(text@)[k].0
                && r@[k].unit == sizes_of(text@)[k].1,
{
    let s = chars_of(text);
    let sp = scan_exec(Pattern::Size, &s);
    let ghost isp = int_spans(sp@);
    let mut r: Vec<SizeLiteral> = Vec::new();
    let mut k: usize = 0;
    while k < sp.len()
        invariant
            k <= sp@.len(),
            isp == int_spans(sp@),
            isp == scan(Pattern::Size, s@, 0),
            s@ == text@,
            r@.len() == k,
            forall|m: int|
                0 <= m < k ==> (#[trigger] r@[m]).number@ == size_number_at(s@, isp[m].0)
                    && r@[m].unit == size_unit_at(s@, isp[m].0),
        decreases sp@.len() - k,
    {
        proof {
            lemma_scan_ok(Pattern::Size, s@, 0);
        }
        let (a, b) = sp[k];
        assert(isp[k as int] == (a as int, b as int));
        let e = size_num_end_exec(&s, a);
        let unit = unit_at_exec(&s, e).unwrap();
        let mut num: Vec<char> = Vec::new();
        push_range(&mut num, &s, a, e);
        r.push(SizeLiteral { number: string_of(&num), unit });
        k = k + 1;
    }
    r
}

/// `text` with the `k`-th size literal rewritten to `new[k]` hundredths,
/// written with two decimals and followed by the literal's own unit.
pub fn replace_sizes(text: &str, new: &Vec<u64>) -> (r: String)
    requires
        new@.len() == sizes_of(text@).len(),
    ensures
        r@ == sizes_replaced(text@, new@),
{
    let s = chars_of(text);
    let sp = scan_exec(Pattern::Size, &s);
    let ghost isp = int_spans(sp@);
    let mut reps: Vec<Vec<char>> = Vec::new();
    let mut k: usize = 0;
    while k < sp.len()
        invariant
            k <= sp@.len(),
            isp == int_spans(sp@),
            isp == scan(Pattern::Size, s@, 0),
            new@.len() == isp.len(),
            reps@.len() == k,
            forall|m: int|
                0 <= m < k ==> #[trigger] reps@[m]@ == fixed2(new@[m] as nat) + unit_text(
                    size_unit_at(s@, isp[m].0),
                ),
        decreases sp@.len() - k,
    {
        proof {
            lemma_scan_ok(Pattern::Size, s@, 0);
        }
        let (a, b) = sp[k];
        assert(isp[k as int] == (a as int, b as int));
        let e = size_num_end_exec(&s, a);
        let unit = unit_at_exec(&s, e).unwrap();
        let mut rep: Vec<char> = Vec::new();
        push_fixed2(&mut rep, new[k]);
        push_str(&mut rep, unit_text_exec(unit));
        reps.push(rep);
        k = k + 1;
    }
    proof {
        lemma_scan_ok(Pattern::Size, s@, 0);
    }
    let out = splice_exec(&s, &sp, &reps);
    assert(reps@.map_values(|v: Vec<char>| v@) =~= Seq::new(
        isp.len(),
        |m: int| fixed2(new@[m] as nat) + unit_text(size_unit_at(s@, isp[m].0)),
    ));
    string_of(&out)
}

/// A size literal is its number followed by its unit, and its replacement
/// is the new number followed by that same unit: the unit is never altered.
pub proof fn lemma_size_unit_kept(s: Seq<char>, new: Seq<u64>, k: int)
    requires
        0 <= k < sizes_of(s).len(),
        new.len() == sizes_of(s).len(),
    ensures
        ({
            let sp = scan(Pattern::Size, s, 0);
            let u = unit_text(sizes_of(s)[k].1);
            &&& s.subrange(sp[k].0, sp[k].1) == sizes_of(s)[k].0 + u
            &&& sizes_replaced(s, new) == splice(
                s,
                0,
                sp,
                Seq::new(sp.len(), |m: int| fixed2(new[m] as nat) + unit_text(sizes_of(s)[m].1)),
                0,
            )
        }),
{
    let sp = scan(Pattern::Size, s, 0);
    lemma_scan_ok(Pattern::Size, s, 0);
    let i = sp[k].0;
    let e = size_num_end(s, i);
    lemma_run_end_bounds(s, i, CharClass::Digit);
    let e1 = run_end(s, i, CharClass::Digit);
    if char_at(s, e1, '.') {
        lemma_run_end_bounds(s, e1 + 1, CharClass::Digit);
    }
    let u = unit_text(sizes_of(s)[k].1);
    assert(has_at(s, e, u));
    assert(s.subrange(i, sp[k].1) =~= s.subrange(i, e) + s.subrange(e, e + u.len()));
    assert(Seq::new(sp.len(), |m: int| fixed2(new[m] as nat) + unit_text(size_unit_at(s, sp[m].0)))
        =~= Seq::new(sp.len(), |m: int| fixed2(new[m] as nat) + unit_text(sizes_of(s)[m].1)));
}

/// A size is always written without a sign, so it is never negative: the
/// number is made of decimal digits and one point, its whole part reads back
/// as `h / 100` and its two decimals as `h % 100`.
pub proof fn lemma_size_written_unsigned(h: nat)
    ensures
        forall|m: int|
            0 <= m < fixed2(h).len() ==> ('0' <= #[trigger] fixed2(h)[m] <= '9') || fixed2(h)[m]
                == '.',
        fixed2(h)[0] != '-',
        digits_value(decimal(h / 100), 0, decimal(h / 100).len() as int) == h / 100,
        fixed2(h) == decimal(h / 100) + seq![
            '.',
            decimal_chars()[((h % 100) / 10) as int],
            decimal_chars()[(h % 10) as int],
        ],
{
    lemma_decimal_reads_back(h / 100);
    let w = decimal(h / 100);
    let f = fixed2(h);
    assert(w.len() >= 1);
    assert forall|m: int| 0 <= m < f.len() implies ('0' <= #[trigger] f[m] <= '9') || f[m]
        == '.' by {
        if m < w.len() {
            assert(f[m] == w[m]);
        }
    }
}

} // verus!
