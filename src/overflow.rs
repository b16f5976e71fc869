//! Forcing every overflow declaration to `visible`, and giving every rule
//! block that lacks one an `overflow: visible;` declaration.
use vstd::prelude::*;

use crate::patterns::{block_len, block_len_exec, overflow_colon, Pattern};
use crate::text::{
    char_at, chars_of, has_at, has_at_exec, in_class, lemma_run_end_bounds, run_end, CharClass, int_spans, lemma_scan_ok, occurs, occurs_in, push_range, push_str,
    scan, scan_exec, splice, splice_exec, string_of,
};

verus! {

/// The replacement of the overflow declaration spanning `sp`: the property
/// name with its axis suffix, if any, and the value `visible`.
pub open spec fn decl_rep(s: Seq<char>, sp: (int, int)) -> Seq<char> {
    let axis = if overflow_colon(s, sp.0) == sp.0 + 10 {
        s.subrange(sp.0 + 8, sp.0 + 10)
    } else {
        Seq::empty()
    };
    "overflow"@ + axis + ": visible"@
}

/// The replacement of the rule block `b` (braces included): unchanged
/// where its body mentions `overflow`, else with `overflow: visible;` put
/// first.
pub open spec fn block_rep(b: Seq<char>) -> Seq<char> {
    let body = b.subrange(1, b.len() - 1);
    if occurs(body, "overflow"@) {
        b
    } else {
        "{ overflow: visible;"@ + body + " }"@
    }
}

/// Every overflow declaration of `s` rewritten to `visible`.
pub open spec fn decls_visible(s: Seq<char>) -> Seq<char> {
    let sp = scan(Pattern::OverflowDecl, s, 0);
    splice(s, 0, sp, Seq::new(sp.len(), |k: int| decl_rep(s, sp[k])), 0)
}

/// Every block of `s` that lacks an overflow declaration given one: where a
/// block starts `s` it is rewritten and the rest follows, else the first
/// character is kept and the rest follows.
pub open spec fn blocks_injected(s: Seq<char>) -> Seq<char>
    decreases s.len(),
{
    if s.len() == 0 {
        s
    } else {
        let n = block_len(s, 0);
        if n > 0 && n <= s.len() {
            block_rep(s.subrange(0, n)) + blocks_injected(s.subrange(n, s.len() as int))
        } else {
            seq![s[0]] + blocks_injected(s.subrange(1, s.len() as int))
        }
    }
}

/// Both passes of the overflow forcer, in order.
pub open spec fn forced(s: Seq<char>) -> Seq<char> {
    blocks_injected(decls_visible(s))
}

fn decl_rep_exec(s: &Vec<char>, a: usize, b: usize) -> (r: Vec<char>)
    requires
        a < b <= s@.len(),
        b == a + crate::patterns::overflow_len(s@, a as int),
    ensures
        r@ == decl_rep(s@, (a as int, b as int)),
{
    proof {
        reveal_strlit("overflow");
        reveal_strlit("-x:");
        reveal_strlit("-y:");
    }
    let len = s.len();
    assert(has_at(s@, a as int, "overflow"@));
    let mut r: Vec<char> = Vec::new();
    push_str(&mut r, "overflow");
    if has_at_exec(s, a + 8, "-x:") || has_at_exec(s, a + 8, "-y:") {
        push_range(&mut r, s, a + 8, a + 10);
    } else {
        assert(s@.subrange(a + 8, a + 8) =~= Seq::<char>::empty());
        push_range(&mut r, s, a + 8, a + 8);
    }
    push_str(&mut r, ": visible");
    r
}

fn block_rep_exec(s: &Vec<char>, a: usize, b: usize) -> (r: Vec<char>)
    requires
        a + 2 <= b <= s@.len(),
    ensures
        r@ == block_rep(s@.subrange(a as int, b as int)),
{
    let ghost blk = s@.subrange(a as int, b as int);
    assert(blk.subrange(1, blk.len() - 1) =~= s@.subrange(a + 1, b - 1));
    let mut r: Vec<char> = Vec::new();
    if occurs_in(s, a + 1, b - 1, "overflow") {
        push_range(&mut r, s, a, b);
    } else {
        push_str(&mut r, "{ overflow: visible;");
        push_range(&mut r, s, a + 1, b - 1);
        push_str(&mut r, " }");
    }
    r
}

/// `run_end` read inside a suffix of `s` is `run_end` read in `s`, shifted.
proof fn lemma_run_end_shift(s: Seq<char>, i: int, j: int, k: CharClass)
    requires
        0 <= i <= s.len(),
        0 <= j,
    ensures
        run_end(s, i + j, k) == i + run_end(s.subrange(i, s.len() as int), j, k),
    decreases s.len() - (i + j),
{
    let t = s.subrange(i, s.len() as int);
    if i + j < s.len() && in_class(k, s[i + j]) {
        assert(t[j] == s[i + j]);
        lemma_run_end_shift(s, i, j + 1, k);
    }
}

proof fn lemma_block_len_shift(s: Seq<char>, i: int)
    requires
        0 <= i <= s.len(),
    ensures
        block_len(s, i) == block_len(s.subrange(i, s.len() as int), 0),
{
    lemma_run_end_shift(s, i, 1, CharClass::NotCloseBrace);
}

fn rewrite_decls(s: &Vec<char>) -> (r: Vec<char>)
    ensures
        r@ == decls_visible(s@),
{
    let sp = scan_exec(Pattern::OverflowDecl, s);
    let ghost isp = int_spans(sp@);
    proof {
        lemma_scan_ok(Pattern::OverflowDecl, s@, 0);
    }
    let mut reps: Vec<Vec<char>> = Vec::new();
    let mut k: usize = 0;
    while k < sp.len()
        invariant
            k <= sp@.len(),
            isp == int_spans(sp@),
            isp == scan(Pattern::OverflowDecl, s@, 0),
            reps@.len() == k,
            forall|m: int| 0 <= m < k ==> #[trigger] reps@[m]@ == decl_rep(s@, isp[m]),
        decreases sp@.len() - k,
    {
        proof {
            lemma_scan_ok(Pattern::OverflowDecl, s@, 0);
        }
        let (a, b) = sp[k];
        assert(isp[k as int] == (a as int, b as int));
        reps.push(decl_rep_exec(s, a, b));
        k = k + 1;
    }
    let r = splice_exec(s, &sp, &reps);
    assert(reps@.map_values(|v: Vec<char>| v@) =~= Seq::new(
        isp.len(),
        |m: int| decl_rep(s@, isp[m]),
    ));
    r
}

fn inject_blocks(s: &Vec<char>) -> (r: Vec<char>)
    ensures
        r@ == blocks_injected(s@),
{
    let len = s.len();
    let mut out: Vec<char> = Vec::new();
    let mut i: usize = 0;
    assert(s@.subrange(0, len as int) =~= s@);
    while i < len
        invariant
            i <= len,
            len == s@.len(),
            out@ + blocks_injected(s@.subrange(i as int, len as int)) == blocks_injected(s@),
        decreases len - i,
    {
        let ghost t = s@.subrange(i as int, len as int);
        proof {
            lemma_block_len_shift(s@, i as int);
            lemma_run_end_bounds(s@, i + 1, CharClass::NotCloseBrace);
        }
        let n = block_len_exec(s, i);
        let ghost before = out@;
        if n > 0 {
            let rep = block_rep_exec(s, i, i + n);
            assert(t.subrange(0, n as int) =~= s@.subrange(i as int, i + n));
            assert(t.subrange(n as int, t.len() as int) =~= s@.subrange(i + n, len as int));
            let mut m: usize = 0;
            while m < rep.len()
                invariant
                    m <= rep@.len(),
                    out@ == before + rep@.subrange(0, m as int),
                decreases rep@.len() - m,
            {
                out.push(rep[m]);
                m = m + 1;
                assert(out@ =~= before + rep@.subrange(0, m as int));
            }
            assert(rep@.subrange(0, m as int) =~= rep@);
            assert(out@ + blocks_injected(s@.subrange(i + n, len as int)) =~= before
                + blocks_injected(t));
            i = i + n;
        } else {
            out.push(s[i]);
            assert(t.subrange(1, t.len() as int) =~= s@.subrange(i + 1, len as int));
            assert(out@ + blocks_injected(s@.subrange(i + 1, len as int)) =~= before
                + blocks_injected(t));
            i = i + 1;
        }
    }
    assert(blocks_injected(s@.subrange(i as int, len as int)) =~= Seq::<char>::empty());
    assert(out@ =~= out@ + Seq::<char>::empty());
    out
}

/// Rewrites every `overflow`, `overflow-x` and `overflow-y` declaration to
/// `visible`, then puts `overflow: visible;` first in every rule block whose
/// body does not mention `overflow`.
pub fn force_overflow_visible(content: &str) -> (r: String)
    ensures
        r@ == forced(content@),
{
    let s = chars_of(content);
    let t = rewrite_decls(&s);
    let u = inject_blocks(&t);
    string_of(&u)
}

/// `{`, a body without `}`, and `}`.
pub open spec fn closed_block(b: Seq<char>) -> bool {
    &&& b.len() >= 2
    &&& b[0] == '{'
    &&& b[b.len() - 1] == '}'
    &&& forall|m: int| 1 <= m < b.len() - 1 ==> #[trigger] b[m] != '}'
}

proof fn lemma_run_end_at(s: Seq<char>, j: int, e: int, k: CharClass)
    requires
        0 <= j <= e < s.len(),
        forall|m: int| j <= m < e ==> in_class(k, #[trigger] s[m]),
        !in_class(k, s[e]),
    ensures
        run_end(s, j, k) == e,
    decreases e - j,
{
    if j < e {
        lemma_run_end_at(s, j + 1, e, k);
    }
}

/// A closed block at the front of a document is the block matched there.
proof fn lemma_block_first(b: Seq<char>, z: Seq<char>)
    requires
        closed_block(b),
    ensures
        block_len(b + z, 0) == b.len(),
{
    let s = b + z;
    assert forall|m: int| 1 <= m < b.len() - 1 implies in_class(
        CharClass::NotCloseBrace,
        #[trigger] s[m],
    ) by {
        assert(s[m] == b[m]);
    }
    lemma_run_end_at(s, 1, b.len() - 1, CharClass::NotCloseBrace);
}

/// Without a closing brace there is no block, and nothing changes.
proof fn lemma_no_close_unchanged(x: Seq<char>)
    requires
        forall|m: int| 0 <= m < x.len() ==> #[trigger] x[m] != '}',
    ensures
        blocks_injected(x) == x,
    decreases x.len(),
{
    if x.len() > 0 {
        lemma_run_end_bounds(x, 1, CharClass::NotCloseBrace);
        let y = x.subrange(1, x.len() as int);
        assert forall|m: int| 0 <= m < y.len() implies #[trigger] y[m] != '}' by {
            assert(y[m] == x[m + 1]);
        }
        lemma_no_close_unchanged(y);
        assert(seq![x[0]] + y =~= x);
    }
}

/// The replacement of a closed block is a closed block whose body mentions
/// `overflow`.
proof fn lemma_rep_closed(b: Seq<char>)
    requires
        closed_block(b),
    ensures
        closed_block(block_rep(b)),
        occurs(block_rep(b).subrange(1, block_rep(b).len() - 1), "overflow"@),
{
    let body = b.subrange(1, b.len() - 1);
    if !occurs(body, "overflow"@) {
        reveal_strlit("{ overflow: visible;");
        reveal_strlit(" }");
        reveal_strlit("overflow");
        let r = block_rep(b);
        assert(r == "{ overflow: visible;"@ + body + " }"@);
        let rb = r.subrange(1, r.len() - 1);
        assert(rb.subrange(1, 9) =~= "overflow"@);
        assert(has_at(rb, 1, "overflow"@));
        assert forall|m: int| 1 <= m < r.len() - 1 implies #[trigger] r[m] != '}' by {
            if m >= 20 && m < 20 + body.len() {
                assert(r[m] == body[m - 20]);
                assert(body[m - 20] == b[m - 19]);
            }
        }
    }
}

proof fn lemma_inject_twice(x: Seq<char>)
    ensures
        blocks_injected(blocks_injected(x)) == blocks_injected(x),
    decreases x.len(),
{
    if x.len() > 0 {
        let n = block_len(x, 0);
        lemma_run_end_bounds(x, 1, CharClass::NotCloseBrace);
        if n > 0 && n <= x.len() {
            let b = x.subrange(0, n);
            let y = x.subrange(n, x.len() as int);
            assert forall|m: int| 1 <= m < b.len() - 1 implies #[trigger] b[m] != '}' by {
                assert(b[m] == x[m]);
                assert(in_class(CharClass::NotCloseBrace, x[m]));
            }
            assert(closed_block(b));
            let r = block_rep(b);
            lemma_rep_closed(b);
            let z = blocks_injected(y);
            lemma_inject_twice(y);
            lemma_block_first(r, z);
            assert((r + z).subrange(0, r.len() as int) =~= r);
            assert((r + z).subrange(r.len() as int, (r + z).len() as int) =~= z);
            assert(blocks_injected(x) == r + z);
        } else {
            let c = x[0];
            let y = x.subrange(1, x.len() as int);
            let z = blocks_injected(y);
            lemma_inject_twice(y);
            let w = seq![c] + z;
            assert(blocks_injected(x) == w);
            if c == '{' {
                assert forall|m: int| 0 <= m < y.len() implies #[trigger] y[m] != '}' by {
                    assert(y[m] == x[m + 1]);
                    assert(in_class(CharClass::NotCloseBrace, x[m + 1]));
                }
                lemma_no_close_unchanged(y);
                assert(w =~= x);
            } else {
                assert(w.subrange(1, w.len() as int) =~= z);
                assert(!char_at(w, 0, '{'));
            }
        }
    }
}

/// Injection is idempotent: injecting into a document that has been through
/// it once, as a forced document has, leaves it as it is, so no block gains a
/// second `overflow: visible;`.
pub proof fn lemma_injection_idempotent(s: Seq<char>)
    ensures
        blocks_injected(blocks_injected(s)) == blocks_injected(s),
        blocks_injected(forced(s)) == forced(s),
{
    lemma_inject_twice(s);
    lemma_inject_twice(decls_visible(s));
}

} // verus!
