//! Character classes, literal matching, left-to-right scanning and splicing
//! over documents held as sequences of characters.
use vstd::prelude::*;

use crate::patterns::{match_len, match_len_exec, Pattern};

verus! {

/// ASCII decimal digits. The patterns take `\d` in this ASCII sense only:
/// digits of other scripts are not read as digits.
pub open spec fn is_digit(c: char) -> bool {
    '0' <= c && c <= '9'
}

pub open spec fn is_hex_digit(c: char) -> bool {
    is_digit(c) || ('a' <= c && c <= 'f') || ('A' <= c && c <= 'F')
}

/// Word characters for the `\b` boundary after a hex colour, in the ASCII
/// sense only: letters, digits and the underscore. A letter of another
/// script after a hex colour therefore counts as a boundary.
pub open spec fn is_word(c: char) -> bool {
    is_digit(c) || ('a' <= c && c <= 'z') || ('A' <= c && c <= 'Z') || c == '_'
}

/// ASCII white space. The patterns take `\s` in this ASCII sense only:
/// other white space, such as a no-break space, is not skipped.
pub open spec fn is_space(c: char) -> bool {
    c == ' ' || c == '\t' || c == '\n' || c == '\r' || c == '\x0B' || c == '\x0C'
}

/// The runs of characters that the patterns skip over.
#[derive(Clone, Copy, PartialEq, Eq, Debug)]
pub enum CharClass {
    Digit,
    Space,
    DigitOrDot,
    NotSemicolon,
    NotCloseBrace,
    HexDigit,
}

pub open spec fn in_class(k: CharClass, c: char) -> bool {
    match k {
        CharClass::Digit => is_digit(c),
        CharClass::Space => is_space(c),
        CharClass::DigitOrDot => is_digit(c) || c == '.',
        CharClass::NotSemicolon => c != ';',
        CharClass::NotCloseBrace => c != '}',
        CharClass::HexDigit => is_hex_digit(c),
    }
}

pub fn in_class_exec(k: CharClass, c: char) -> (r: bool)
    ensures
        r == in_class(k, c),
{
    match k {
        CharClass::Digit => '0' <= c && c <= '9',
        CharClass::Space => c == ' ' || c == '\t' || c == '\n' || c == '\r' || c == '\x0B'
            || c == '\x0C',
        CharClass::DigitOrDot => ('0' <= c && c <= '9') || c == '.',
        CharClass::NotSemicolon => c != ';',
        CharClass::NotCloseBrace => c != '}',
        CharClass::HexDigit => ('0' <= c && c <= '9') || ('a' <= c && c <= 'f') || ('A' <= c
            && c <= 'F'),
    }
}

/// End of the longest run of class `k` that starts at `j`.
pub open spec fn run_end(s: Seq<char>, j: int, k: CharClass) -> int
    decreases s.len() - j,
{
    if j < 0 || j >= s.len() || !in_class(k, s[j]) {
        j
    } else {
        run_end(s, j + 1, k)
    }
}

pub proof fn lemma_run_end_bounds(s: Seq<char>, j: int, k: CharClass)
    requires
        0 <= j <= s.len(),
    ensures
        j <= run_end(s, j, k) <= s.len(),
        run_end(s, j, k) < s.len() ==> !in_class(k, s[run_end(s, j, k)]),
        forall|m: int| j <= m < run_end(s, j, k) ==> in_class(k, #[trigger] s[m]),
    decreases s.len() - j,
{
    if j < s.len() && in_class(k, s[j]) {
        lemma_run_end_bounds(s, j + 1, k);
    }
}

pub fn skip_run(s: &Vec<char>, j: usize, k: CharClass) -> (e: usize)
    requires
        j <= s@.len(),
    ensures
        e == run_end(s@, j as int, k),
        j <= e <= s@.len(),
        s@.len() <= usize::MAX,
{
    let len = s.len();
    proof {
        lemma_run_end_bounds(s@, j as int, k);
    }
    let mut e: usize = j;
    while e < s.len() && in_class_exec(k, s[e])
        invariant
            j <= e <= s@.len(),
            run_end(s@, e as int, k) == run_end(s@, j as int, k),
        decreases s@.len() - e,
    {
        e = e + 1;
    }
    e
}

/// `s` holds `c` at position `j`.
pub open spec fn char_at(s: Seq<char>, j: int, c: char) -> bool {
    0 <= j < s.len() && s[j] == c
}

pub fn char_at_exec(s: &Vec<char>, j: usize, c: char) -> (r: bool)
    ensures
        r == char_at(s@, j as int, c),
        s@.len() <= usize::MAX,
{
    let len = s.len();
    j < len && s[j] == c
}

/// `lit` stands in `s` at position `i`.
pub open spec fn has_at(s: Seq<char>, i: int, lit: Seq<char>) -> bool {
    0 <= i && i + lit.len() <= s.len() && s.subrange(i, i + lit.len()) =~= lit
}

/// `lit` stands somewhere in `t`.
pub open spec fn occurs(t: Seq<char>, lit: Seq<char>) -> bool {
    exists|j: int| has_at(t, j, lit)
}

pub fn has_at_exec(s: &Vec<char>, i: usize, lit: &str) -> (r: bool)
    ensures
        r == has_at(s@, i as int, lit@),
        s@.len() <= usize::MAX,
{
    let len = s.len();
    let n = lit.unicode_len();
    if i > s.len() || n > s.len() - i {
        return false;
    }
    let mut m: usize = 0;
    while m < n
        invariant
            m <= n,
            n == lit@.len(),
            i + n <= s@.len(),
            forall|q: int| 0 <= q < m ==> s@[i + q] == lit@[q],
            len == s@.len(),
        decreases n - m,
    {
        if s[i + m] != lit.get_char(m) {
            assert(s@.subrange(i as int, i + n)[m as int] != lit@[m as int]);
            return false;
        }
        m = m + 1;
    }
    assert(s@.subrange(i as int, i + n) =~= lit@);
    true
}

/// Whether `lit` stands in `s` between `a` and `b`.
pub fn occurs_in(s: &Vec<char>, a: usize, b: usize, lit: &str) -> (r: bool)
    requires
        a <= b <= s@.len(),
    ensures
        r == occurs(s@.subrange(a as int, b as int), lit@),
{
    let ghost t = s@.subrange(a as int, b as int);
    let len = s.len();
    let n = lit.unicode_len();
    if n > b - a {
        assert forall|j: int| !has_at(t, j, lit@) by {}
        return false;
    }
    if n == 0 {
        assert(t.subrange(0, 0) =~= lit@);
        assert(has_at(t, 0, lit@));
        return true;
    }
    let mut j: usize = a;
    while n <= b - j
        invariant
            a <= j <= b,
            n >= 1,
            n == lit@.len(),
            n <= b - a,
            a <= b <= s@.len(),
            t == s@.subrange(a as int, b as int),
            len == s@.len(),
            forall|q: int| 0 <= q < j - a ==> !has_at(t, q, lit@),
        decreases b - j,
    {
        if has_at_exec(s, j, lit) {
            assert(t.subrange(j - a, j - a + n) =~= s@.subrange(j as int, j + n));
            assert(has_at(t, j - a, lit@));
            return true;
        }
        assert(t.subrange(j - a, j - a + n) =~= s@.subrange(j as int, j + n));
        j = j + 1;
    }
    assert forall|q: int| !has_at(t, q, lit@) by {
        if 0 <= q && q < j - a {
        } else {
        }
    }
    false
}

/// Appends `lit` to `out`.
pub fn push_str(out: &mut Vec<char>, lit: &str)
    ensures
        final(out)@ == old(out)@ + lit@,
{
    let n = lit.unicode_len();
    let mut m: usize = 0;
    while m < n
        invariant
            m <= n,
            n == lit@.len(),
            out@ == old(out)@ + lit@.subrange(0, m as int),
        decreases n - m,
    {
        out.push(lit.get_char(m));
        m = m + 1;
        assert(out@ =~= old(out)@ + lit@.subrange(0, m as int));
    }
    assert(lit@.subrange(0, n as int) =~= lit@);
}

/// Appends `s[a..b]` to `out`.
pub fn push_range(out: &mut Vec<char>, s: &Vec<char>, a: usize, b: usize)
    requires
        a <= b <= s@.len(),
    ensures
        final(out)@ == old(out)@ + s@.subrange(a as int, b as int),
{
    let mut m: usize = a;
    while m < b
        invariant
            a <= m <= b,
            b <= s@.len(),
            out@ == old(out)@ + s@.subrange(a as int, m as int),
        decreases b - m,
    {
        out.push(s[m]);
        m = m + 1;
        assert(out@ =~= old(out)@ + s@.subrange(a as int, m as int));
    }
}

/// The spans of the non-overlapping matches of `p` in `s` from `i` on,
/// found left to right: at each position a match is taken whole and the
/// scan resumes after it; where none starts, the scan moves one character on.
pub open spec fn scan(p: Pattern, s: Seq<char>, i: int) -> Seq<(int, int)>
    decreases s.len() - i,
{
    if i < 0 || i >= s.len() {
        Seq::empty()
    } else {
        let n = match_len(p, s, i);
        if n > 0 && i + n <= s.len() {
            seq![(i, i + n)] + scan(p, s, i + n)
        } else {
            scan(p, s, i + 1)
        }
    }
}

/// The spans lie in order between `from` and `len`, none overlapping.
pub open spec fn spans_ok(sp: Seq<(int, int)>, from: int, len: int) -> bool {
    &&& forall|k: int| 0 <= k < sp.len() ==> from <= #[trigger] sp[k].0 <= sp[k].1 <= len
    &&& forall|k: int| 0 < k < sp.len() ==> #[trigger] sp[k - 1].1 <= sp[k].0
}

pub proof fn lemma_scan_ok(p: Pattern, s: Seq<char>, i: int)
    requires
        0 <= i,
    ensures
        spans_ok(scan(p, s, i), i, s.len() as int),
        forall|k: int| 0 <= k < scan(p, s, i).len() ==> #[trigger] scan(p, s, i)[k].0 < scan(p, s, i)[k].1,
        forall|k: int|
            0 <= k < scan(p, s, i).len() ==> #[trigger] scan(p, s, i)[k].1 == scan(p, s, i)[k].0
                + match_len(p, s, scan(p, s, i)[k].0),
    decreases s.len() - i,
{
    if i < s.len() {
        let n = match_len(p, s, i);
        if n > 0 && i + n <= s.len() {
            lemma_scan_ok(p, s, i + n);
            let rest = scan(p, s, i + n);
            let all = seq![(i, i + n)] + rest;
            assert forall|k: int| 0 < k < all.len() implies #[trigger] all[k - 1].1 <= all[k].0 by {
                if k > 1 {
                    assert(all[k - 1] == rest[k - 2]);
                    assert(all[k] == rest[k - 1]);
                } else {
                    assert(all[k] == rest[0]);
                }
            }
            assert forall|k: int| 0 <= k < all.len() implies i <= #[trigger] all[k].0 <= all[k].1
                <= s.len() && all[k].0 < all[k].1 && all[k].1 == all[k].0 + match_len(p, s, all[k].0) by {
                if k > 0 {
                    assert(all[k] == rest[k - 1]);
                }
            }
        } else {
            lemma_scan_ok(p, s, i + 1);
        }
    }
}

pub open spec fn int_spans(v: Seq<(usize, usize)>) -> Seq<(int, int)> {
    v.map_values(|x: (usize, usize)| (x.0 as int, x.1 as int))
}

/// All matches of `p` in `s`, left to right.
pub fn scan_exec(p: Pattern, s: &Vec<char>) -> (r: Vec<(usize, usize)>)
    ensures
        int_spans(r@) == scan(p, s@, 0),
{
    let mut r: Vec<(usize, usize)> = Vec::new();
    let mut i: usize = 0;
    while i < s.len()
        invariant
            i <= s@.len(),
            int_spans(r@) + scan(p, s@, i as int) == scan(p, s@, 0),
        decreases s@.len() - i,
    {
        let n = match_len_exec(p, s, i);
        if n > 0 && n <= s.len() - i {
            let ghost old_r = r@;
            r.push((i, i + n));
            assert(int_spans(r@) =~= int_spans(old_r) + seq![(i as int, i + n)]);
            assert(int_spans(r@) + scan(p, s@, (i + n) as int) =~= int_spans(old_r) + scan(
                p,
                s@,
                i as int,
            ));
            i = i + n;
        } else {
            i = i + 1;
        }
    }
    assert(scan(p, s@, i as int) =~= Seq::<(int, int)>::empty());
    assert(int_spans(r@) =~= int_spans(r@) + scan(p, s@, i as int));
    r
}

/// `s` with the `k`-th span and onward replaced by the matching entry of
/// `reps`, copying what lies between them, starting from position `from`.
pub open spec fn splice(
    s: Seq<char>,
    from: int,
    sp: Seq<(int, int)>,
    reps: Seq<Seq<char>>,
    k: int,
) -> Seq<char>
    decreases sp.len() - k,
{
    if k < 0 || k >= sp.len() {
        s.subrange(from, s.len() as int)
    } else {
        s.subrange(from, sp[k].0) + reps[k] + splice(s, sp[k].1, sp, reps, k + 1)
    }
}

/// Replaces each span of `sp` in `s` by the matching entry of `reps`.
pub fn splice_exec(s: &Vec<char>, sp: &Vec<(usize, usize)>, reps: &Vec<Vec<char>>) -> (r: Vec<
    char,
>)
    requires
        spans_ok(int_spans(sp@), 0, s@.len() as int),
        reps@.len() == sp@.len(),
    ensures
        r@ == splice(s@, 0, int_spans(sp@), reps@.map_values(|v: Vec<char>| v@), 0),
{
    let ghost isp = int_spans(sp@);
    let ghost ireps = reps@.map_values(|v: Vec<char>| v@);
    let mut out: Vec<char> = Vec::new();
    let mut prev: usize = 0;
    let mut k: usize = 0;
    while k < sp.len()
        invariant
            k <= sp@.len(),
            reps@.len() == sp@.len(),
            isp == int_spans(sp@),
            ireps == reps@.map_values(|v: Vec<char>| v@),
            spans_ok(isp, 0, s@.len() as int),
            prev <= s@.len(),
            k < sp@.len() ==> prev <= sp@[k as int].0,
            out@ + splice(s@, prev as int, isp, ireps, k as int) == splice(s@, 0, isp, ireps, 0),
        decreases sp@.len() - k,
    {
        let (a, b) = sp[k];
        assert(isp[k as int] == (a as int, b as int));
        push_range(&mut out, s, prev, a);
        let rep = &reps[k];
        let mut m: usize = 0;
        let ghost before = out@;
        while m < rep.len()
            invariant
                m <= rep@.len(),
                out@ == before + rep@.subrange(0, m as int),
            decreases rep@.len() - m,
        {
            out.push(rep[m]);
            m = m + 1;
            assert(out@ =~= before + rep@.subrange(0, m as int));
        }
        assert(rep@.subrange(0, m as int) =~= rep@);
        assert(ireps[k as int] == rep@);
        prev = b;
        k = k + 1;
        if k < sp.len() {
            assert(isp[k as int - 1].1 <= isp[k as int].0);
        }
    }
    push_range(&mut out, s, prev, s.len());
    out
}

/// The characters of `s`, in order.
pub fn chars_of(s: &str) -> (r: Vec<char>)
    ensures
        r@ == s@,
{
    let mut r: Vec<char> = Vec::new();
    for c in it: s.chars()
        invariant
            r@ == it.seq().subrange(0, it.index() as int),
    {
        r.push(c);
    }
    proof {
        broadcast use vstd::string::group_string_axioms;
    }
    assert(r@ =~= s@);
    r
}

/// Relies on `String`'s `FromIterator<&char>` (`collect`): the string holds
/// the same characters in the same order.
#[verifier::external_body]
pub(crate) fn string_of(v: &Vec<char>) -> (r: String)
    ensures
        r@ == v@,
{
    v.iter().collect()
}

} // verus!
