//! Declarations of the layout properties whose keyword may be swapped for
//! another of the same property.
use vstd::prelude::*;

use crate::patterns::{
    keyword_index, property_name, property_name_exec,
    property_value, property_values, Pattern, Property,
};
use crate::text::{
    chars_of, int_spans, lemma_scan_ok, push_range, push_str, scan, scan_exec, splice, splice_exec,
    string_of,
};

verus! {

/// The keyword indices, in the property's table, of the declarations of `p`
/// in `s`, left to right.
pub open spec fn keywords_of(p: Property, s: Seq<char>) -> Seq<int> {
    let sp = scan(Pattern::Keyword(p), s, 0);
    Seq::new(sp.len(), |k: int| keyword_index(p, s, sp[k].0))
}

/// The replacement of the declaration spanning `sp`: `name: keyword` for a
/// chosen keyword, else the declaration as it stands.
pub open spec fn keyword_rep(p: Property, s: Seq<char>, sp: (int, int), choice: Option<usize>) -> Seq<char> {
    match choice {
        Some(j) => property_name(p) + ": "@ + property_values(p)[j as int],
        None => s.subrange(sp.0, sp.1),
    }
}

/// `s` with the `k`-th declaration of `p` rewritten by `choices[k]`.
pub open spec fn keywords_replaced(p: Property, s: Seq<char>, choices: Seq<Option<usize>>) -> Seq<char> {
    let sp = scan(Pattern::Keyword(p), s, 0);
    splice(s, 0, sp, Seq::new(sp.len(), |k: int| keyword_rep(p, s, sp[k], choices[k])), 0)
}

/// The seven layout properties, in the order in which they are treated.
pub open spec fn layout_order() -> Seq<Property> {
    seq![
        Property::FlexDirection,
        Property::AlignItems,
        Property::JustifyContent,
        Property::TextAlign,
        Property::Position,
        Property::Display,
        Property::Float,
    ]
}

pub fn layout_properties() -> (r: Vec<Property>)
    ensures
        r@ == layout_order(),
{
    let r = vec![
        Property::FlexDirection,
        Property::AlignItems,
        Property::JustifyContent,
        Property::TextAlign,
        Property::Position,
        Property::Display,
        Property::Float,
    ];
    assert(r@ =~= layout_order());
    r
}

/// The number of keywords that property `p` may take.
pub fn keyword_count(p: Property) -> (n: usize)
    ensures
        n == property_values(p).len(),
        n > 0,
{
    crate::patterns::value_count(p)
}

/// The keyword indices, in the table of `p`, of the declarations of `p` in
/// `text`, left to right.
pub fn find_keywords(text: &str, p: Property) -> (r: Vec<usize>)
    ensures
        r@.len() == keywords_of(p, text@).len(),
        forall|k: int| 0 <= k < r@.len() ==> #[trigger] r@[k] as int == keywords_of(p, text@)[k],
{
    let s = chars_of(text);
    let sp = scan_exec(Pattern::Keyword(p), &s);
    let ghost isp = int_spans(sp@);
    let mut r: Vec<usize> = Vec::new();
    let mut k: usize = 0;
    while k < sp.len()
        invariant
            k <= sp@.len(),
            isp == int_spans(sp@),
            isp == scan(Pattern::Keyword(p), s@, 0),
            s@ == text@,
            r@.len() == k,
            forall|m: int| 0 <= m < k ==> #[trigger] r@[m] as int == keyword_index(p, s@, isp[m].0),
        decreases sp@.len() - k,
    {
        proof {
            lemma_scan_ok(Pattern::Keyword(p), s@, 0);
        }
        let (a, b) = sp[k];
        assert(isp[k as int] == (a as int, b as int));
        let w = crate::patterns::keyword_start_exec(p, &s, a).unwrap();
        proof {
            crate::patterns::lemma_longest_value(property_values(p), s@, w as int, 0, -1);
        }
        let j = crate::patterns::longest_value_exec(p, &s, w).unwrap();
        r.push(j);
        k = k + 1;
    }
    r
}

/// `text` with the `k`-th declaration of `p` rewritten to `name: keyword`
/// with the keyword of index `j` where `choices[k]` is `Some(j)`, and left as
/// it stands where it is `None`.
pub fn replace_keywords(text: &str, p: Property, choices: &Vec<Option<usize>>) -> (r: String)
    requires
        choices@.len() == keywords_of(p, text@).len(),
        forall|k: int|
            0 <= k < choices@.len() && (#[trigger] choices@[k]) is Some ==> choices@[k]->0
                < property_values(p).len(),
    ensures
        r@ == keywords_replaced(p, text@, choices@),
{
    let s = chars_of(text);
    let sp = scan_exec(Pattern::Keyword(p), &s);
    let ghost isp = int_spans(sp@);
    let mut reps: Vec<Vec<char>> = Vec::new();
    let mut k: usize = 0;
    while k < sp.len()
        invariant
            k <= sp@.len(),
            isp == int_spans(sp@),
            isp == scan(Pattern::Keyword(p), s@, 0),
            s@ == text@,
            choices@.len() == isp.len(),
            forall|m: int|
                0 <= m < choices@.len() && (#[trigger] choices@[m]) is Some ==> choices@[m]->0
                    < property_values(p).len(),
            reps@.len() == k,
            forall|m: int|
                0 <= m < k ==> #[trigger] reps@[m]@ == keyword_rep(p, s@, isp[m], choices@[m]),
        decreases sp@.len() - k,
    {
        proof {
            lemma_scan_ok(Pattern::Keyword(p), s@, 0);
        }
        let (a, b) = sp[k];
        assert(isp[k as int] == (a as int, b as int));
        let mut rep: Vec<char> = Vec::new();
        match choices[k] {
            Some(j) => {
                push_str(&mut rep, property_name_exec(p));
                push_str(&mut rep, ": ");
                push_str(&mut rep, property_value(p, j));
            },
            None => {
                push_range(&mut rep, &s, a, b);
            },
        }
        reps.push(rep);
        k = k + 1;
    }
    proof {
        lemma_scan_ok(Pattern::Keyword(p), s@, 0);
    }
    let out = splice_exec(&s, &sp, &reps);
    assert(reps@.map_values(|v: Vec<char>| v@) =~= Seq::new(
        isp.len(),
        |m: int| keyword_rep(p, s@, isp[m], choices@[m]),
    ));
    string_of(&out)
}

} // verus!
