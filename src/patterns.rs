//! The fixed patterns that the destroyers look for, and where a match of
//! each starts and ends.
use vstd::prelude::*;

use crate::text::{
    char_at, char_at_exec, has_at, has_at_exec, is_word, run_end, skip_run,
    CharClass,
};

verus! {

/// The layout properties whose keyword values may be swapped.
#[derive(Clone, Copy, PartialEq, Eq, Debug)]
pub enum Property {
    FlexDirection,
    AlignItems,
    JustifyContent,
    TextAlign,
    Position,
    Display,
    Float,
}

/// The units that a size literal may carry.
#[derive(Clone, Copy, PartialEq, Eq, Debug)]
pub enum Unit {
    Px,
    Em,
    Rem,
    Percent,
    Vh,
    Vw,
    Pt,
}

/// What a scan looks for.
#[derive(Clone, Copy, PartialEq, Eq, Debug)]
pub enum Pattern {
    /// `#` and six or three hex digits, then a word boundary.
    HexColor,
    /// `rgb(` or `rgba(`, three decimal channels and an optional alpha.
    RgbColor,
    /// A decimal number directly followed by a unit.
    Size,
    /// `name:`, optional white space and one of the property's keywords.
    Keyword(Property),
    /// `overflow`, `overflow-x` or `overflow-y`, a colon and a value up to `;`.
    OverflowDecl,
    /// `{`, everything up to the first `}`, and that `}`.
    Block,
}

pub open spec fn property_name(p: Property) -> Seq<char> {
    match p {
        Property::FlexDirection => "flex-direction"@,
        Property::AlignItems => "align-items"@,
        Property::JustifyContent => "justify-content"@,
        Property::TextAlign => "text-align"@,
        Property::Position => "position"@,
        Property::Display => "display"@,
        Property::Float => "float"@,
    }
}

/// The keywords of each property, in the order in which they are tried.
pub open spec fn property_values(p: Property) -> Seq<Seq<char>> {
    match p {
        Property::FlexDirection => seq!["row"@, "row-reverse"@, "column"@, "column-reverse"@],
        Property::AlignItems => seq![
            "flex-start"@,
            "flex-end"@,
            "center"@,
            "baseline"@,
            "stretch"@,
        ],
        Property::JustifyContent => seq![
            "flex-start"@,
            "flex-end"@,
            "center"@,
            "space-between"@,
            "space-around"@,
            "space-evenly"@,
        ],
        Property::TextAlign => seq!["left"@, "right"@, "center"@, "justify"@],
        Property::Position => seq!["static"@, "relative"@, "absolute"@, "fixed"@, "sticky"@],
        Property::Display => seq![
            "block"@,
            "inline"@,
            "inline-block"@,
            "flex"@,
            "grid"@,
            "none"@,
        ],
        Property::Float => seq!["left"@, "right"@, "none"@],
    }
}

pub fn property_name_exec(p: Property) -> (r: &'static str)
    ensures
        r@ == property_name(p),
{
    match p {
        Property::FlexDirection => "flex-direction",
        Property::AlignItems => "align-items",
        Property::JustifyContent => "justify-content",
        Property::TextAlign => "text-align",
        Property::Position => "position",
        Property::Display => "display",
        Property::Float => "float",
    }
}

pub fn value_count(p: Property) -> (n: usize)
    ensures
        n == property_values(p).len(),
        n > 0,
{
    match p {
        Property::FlexDirection => 4,
        Property::AlignItems => 5,
        Property::JustifyContent => 6,
        Property::TextAlign => 4,
        Property::Position => 5,
        Property::Display => 6,
        Property::Float => 3,
    }
}

pub fn property_value(p: Property, j: usize) -> (r: &'static str)
    requires
        j < property_values(p).len(),
    ensures
        r@ == property_values(p)[j as int],
{
    match p {
        Property::FlexDirection => {
            if j == 0 { "row" } else if j == 1 { "row-reverse" } else if j == 2 { "column" } else { "column-reverse" }
        },
        Property::AlignItems => {
            if j == 0 { "flex-start" } else if j == 1 { "flex-end" } else if j == 2 { "center" } else if j == 3 { "baseline" } else { "stretch" }
        },
        Property::JustifyContent => {
            if j == 0 { "flex-start" } else if j == 1 { "flex-end" } else if j == 2 { "center" } else if j == 3 { "space-between" } else if j == 4 { "space-around" } else { "space-evenly" }
        },
        Property::TextAlign => {
            if j == 0 { "left" } else if j == 1 { "right" } else if j == 2 { "center" } else { "justify" }
        },
        Property::Position => {
            if j == 0 { "static" } else if j == 1 { "relative" } else if j == 2 { "absolute" } else if j == 3 { "fixed" } else { "sticky" }
        },
        Property::Display => {
            if j == 0 { "block" } else if j == 1 { "inline" } else if j == 2 { "inline-block" } else if j == 3 { "flex" } else if j == 4 { "grid" } else { "none" }
        },
        Property::Float => {
            if j == 0 { "left" } else if j == 1 { "right" } else { "none" }
        },
    }
}

pub open spec fn unit_text(u: Unit) -> Seq<char> {
    match u {
        Unit::Px => "px"@,
        Unit::Em => "em"@,
        Unit::Rem => "rem"@,
        Unit::Percent => "%"@,
        Unit::Vh => "vh"@,
        Unit::Vw => "vw"@,
        Unit::Pt => "pt"@,
    }
}

pub fn unit_text_exec(u: Unit) -> (r: &'static str)
    ensures
        r@ == unit_text(u),
{
    match u {
        Unit::Px => "px",
        Unit::Em => "em",
        Unit::Rem => "rem",
        Unit::Percent => "%",
        Unit::Vh => "vh",
        Unit::Vw => "vw",
        Unit::Pt => "pt",
    }
}

/// The first unit, in the order px, em, rem, %, vh, vw, pt, that stands at `j`.
pub open spec fn unit_at(s: Seq<char>, j: int) -> Option<Unit> {
    if has_at(s, j, "px"@) {
        Some(Unit::Px)
    } else if has_at(s, j, "em"@) {
        Some(Unit::Em)
    } else if has_at(s, j, "rem"@) {
        Some(Unit::Rem)
    } else if has_at(s, j, "%"@) {
        Some(Unit::Percent)
    } else if has_at(s, j, "vh"@) {
        Some(Unit::Vh)
    } else if has_at(s, j, "vw"@) {
        Some(Unit::Vw)
    } else if has_at(s, j, "pt"@) {
        Some(Unit::Pt)
    } else {
        None
    }
}

pub fn unit_at_exec(s: &Vec<char>, j: usize) -> (r: Option<Unit>)
    ensures
        r == unit_at(s@, j as int),
{
    if has_at_exec(s, j, "px") {
        Some(Unit::Px)
    } else if has_at_exec(s, j, "em") {
        Some(Unit::Em)
    } else if has_at_exec(s, j, "rem") {
        Some(Unit::Rem)
    } else if has_at_exec(s, j, "%") {
        Some(Unit::Percent)
    } else if has_at_exec(s, j, "vh") {
        Some(Unit::Vh)
    } else if has_at_exec(s, j, "vw") {
        Some(Unit::Vw)
    } else if has_at_exec(s, j, "pt") {
        Some(Unit::Pt)
    } else {
        None
    }
}

/// No word character follows position `j - 1`.
pub open spec fn boundary(s: Seq<char>, j: int) -> bool {
    j >= s.len() || !is_word(s[j])
}

pub open spec fn hex_len(s: Seq<char>, i: int) -> int {
    let e = run_end(s, i + 1, CharClass::HexDigit);
    if char_at(s, i, '#') && e >= i + 7 && boundary(s, i + 7) {
        7
    } else if char_at(s, i, '#') && e >= i + 4 && boundary(s, i + 4) {
        4
    } else {
        0
    }
}

/// Position just after `rgb(` or `rgba(` at `i`, or -1.
pub open spec fn rgb_open(s: Seq<char>, i: int) -> int {
    if has_at(s, i, "rgb("@) {
        i + 4
    } else if has_at(s, i, "rgba("@) {
        i + 5
    } else {
        -1
    }
}

/// Where the channel digits and the gaps between them start and end.
pub open spec fn rgb_e1(s: Seq<char>, i: int) -> int {
    run_end(s, rgb_open(s, i), CharClass::Digit)
}

pub open spec fn rgb_w1(s: Seq<char>, i: int) -> int {
    run_end(s, rgb_e1(s, i) + 1, CharClass::Space)
}

pub open spec fn rgb_e2(s: Seq<char>, i: int) -> int {
    run_end(s, rgb_w1(s, i), CharClass::Digit)
}

pub open spec fn rgb_w2(s: Seq<char>, i: int) -> int {
    run_end(s, rgb_e2(s, i) + 1, CharClass::Space)
}

pub open spec fn rgb_e3(s: Seq<char>, i: int) -> int {
    run_end(s, rgb_w2(s, i), CharClass::Digit)
}

pub open spec fn rgb_w3(s: Seq<char>, i: int) -> int {
    run_end(s, rgb_e3(s, i) + 1, CharClass::Space)
}

pub open spec fn rgb_e4(s: Seq<char>, i: int) -> int {
    run_end(s, rgb_w3(s, i), CharClass::DigitOrDot)
}

/// The three channels are in place, each followed by what the pattern asks.
pub open spec fn rgb_channels_ok(s: Seq<char>, i: int) -> bool {
    &&& rgb_open(s, i) >= 0
    &&& rgb_e1(s, i) > rgb_open(s, i)
    &&& char_at(s, rgb_e1(s, i), ',')
    &&& rgb_e2(s, i) > rgb_w1(s, i)
    &&& char_at(s, rgb_e2(s, i), ',')
    &&& rgb_e3(s, i) > rgb_w2(s, i)
}

/// The match carries an alpha component.
pub open spec fn rgb_has_alpha(s: Seq<char>, i: int) -> bool {
    char_at(s, rgb_e3(s, i), ',') && rgb_e4(s, i) > rgb_w3(s, i) && char_at(
        s,
        rgb_e4(s, i),
        ')',
    )
}

pub open spec fn rgb_len(s: Seq<char>, i: int) -> int {
    if !rgb_channels_ok(s, i) {
        0
    } else if rgb_has_alpha(s, i) {
        rgb_e4(s, i) + 1 - i
    } else if char_at(s, rgb_e3(s, i), ')') {
        rgb_e3(s, i) + 1 - i
    } else {
        0
    }
}

/// End of the number of a size literal at `i`: digits, then `.` and digits
/// where they follow.
pub open spec fn size_num_end(s: Seq<char>, i: int) -> int {
    let e1 = run_end(s, i, CharClass::Digit);
    let e2 = run_end(s, e1 + 1, CharClass::Digit);
    if char_at(s, e1, '.') && e2 > e1 + 1 {
        e2
    } else {
        e1
    }
}

pub open spec fn size_len(s: Seq<char>, i: int) -> int {
    let e = size_num_end(s, i);
    if run_end(s, i, CharClass::Digit) > i && unit_at(s, e) is Some {
        e + unit_text(unit_at(s, e)->0).len() - i
    } else {
        0
    }
}

/// Index of the longest of `vals` that stands at `w`, looking from the
/// `j`-th on with `cur` the longest found so far (-1 for none); the first
/// listed wins between equal lengths.
pub open spec fn longest_value(vals: Seq<Seq<char>>, s: Seq<char>, w: int, j: int, cur: int) -> int
    decreases vals.len() - j,
{
    if j < 0 || j >= vals.len() {
        cur
    } else if has_at(s, w, vals[j]) && (cur < 0 || vals[j].len() > vals[cur].len()) {
        longest_value(vals, s, w, j + 1, j)
    } else {
        longest_value(vals, s, w, j + 1, cur)
    }
}

pub proof fn lemma_longest_value(vals: Seq<Seq<char>>, s: Seq<char>, w: int, j: int, cur: int)
    requires
        0 <= j,
        cur == -1 || (0 <= cur < vals.len() && has_at(s, w, vals[cur])),
    ensures
        longest_value(vals, s, w, j, cur) == -1 || (0 <= longest_value(vals, s, w, j, cur)
            < vals.len() && has_at(s, w, vals[longest_value(vals, s, w, j, cur)])),
    decreases vals.len() - j,
{
    if j < vals.len() {
        if has_at(s, w, vals[j]) && (cur < 0 || vals[j].len() > vals[cur].len()) {
            lemma_longest_value(vals, s, w, j + 1, j);
        } else {
            lemma_longest_value(vals, s, w, j + 1, cur);
        }
    }
}

/// Characters that may belong to a property name: a match of a property
/// must not follow one, so that `position` is not read inside
/// `background-position` nor `overflow` inside `text-overflow`.
pub open spec fn is_name_char(c: char) -> bool {
    is_word(c) || c == '-'
}

/// No name character stands just before position `i`.
pub open spec fn name_start(s: Seq<char>, i: int) -> bool {
    i <= 0 || i > s.len() || !is_name_char(s[i - 1])
}

pub fn name_start_exec(s: &Vec<char>, i: usize) -> (r: bool)
    ensures
        r == name_start(s@, i as int),
{
    i == 0 || i > s.len() || !(is_word_exec(s[i - 1]) || s[i - 1] == '-')
}

/// Where the keyword of a declaration of `p` at `i` would start, or -1.
pub open spec fn keyword_start(p: Property, s: Seq<char>, i: int) -> int {
    let n = property_name(p).len();
    if name_start(s, i) && has_at(s, i, property_name(p)) && char_at(s, i + n, ':') {
        run_end(s, i + n + 1, CharClass::Space)
    } else {
        -1
    }
}

/// Index in the property's table of the keyword matched at `i`, or -1.
pub open spec fn keyword_index(p: Property, s: Seq<char>, i: int) -> int {
    let w = keyword_start(p, s, i);
    if w < 0 {
        -1
    } else {
        longest_value(property_values(p), s, w, 0, -1)
    }
}

pub open spec fn keyword_len(p: Property, s: Seq<char>, i: int) -> int {
    let k = keyword_index(p, s, i);
    if k < 0 {
        0
    } else {
        keyword_start(p, s, i) + property_values(p)[k].len() - i
    }
}

/// Position of the colon of an overflow declaration at `i`, or -1.
pub open spec fn overflow_colon(s: Seq<char>, i: int) -> int {
    if !name_start(s, i) || !has_at(s, i, "overflow"@) {
        -1
    } else if has_at(s, i + 8, "-x:"@) || has_at(s, i + 8, "-y:"@) {
        i + 10
    } else if char_at(s, i + 8, ':') {
        i + 8
    } else {
        -1
    }
}

pub open spec fn overflow_len(s: Seq<char>, i: int) -> int {
    let c = overflow_colon(s, i);
    if c >= 0 && c + 1 < s.len() && s[c + 1] != ';' {
        run_end(s, c + 1, CharClass::NotSemicolon) - i
    } else {
        0
    }
}

pub open spec fn block_len(s: Seq<char>, i: int) -> int {
    let e = run_end(s, i + 1, CharClass::NotCloseBrace);
    if char_at(s, i, '{') && e < s.len() {
        e + 1 - i
    } else {
        0
    }
}

/// Length of the match of `p` that starts at `i`; 0 where none does.
pub open spec fn match_len(p: Pattern, s: Seq<char>, i: int) -> int {
    match p {
        Pattern::HexColor => hex_len(s, i),
        Pattern::RgbColor => rgb_len(s, i),
        Pattern::Size => size_len(s, i),
        Pattern::Keyword(q) => keyword_len(q, s, i),
        Pattern::OverflowDecl => overflow_len(s, i),
        Pattern::Block => block_len(s, i),
    }
}

pub fn hex_len_exec(s: &Vec<char>, i: usize) -> (n: usize)
    ensures
        n == hex_len(s@, i as int),
{
    if !char_at_exec(s, i, '#') {
        return 0;
    }
    let e = skip_run(s, i + 1, CharClass::HexDigit);
    if e - i >= 7 && (i + 7 >= s.len() || !is_word_exec(s[i + 7])) {
        7
    } else if e - i >= 4 && (i + 4 >= s.len() || !is_word_exec(s[i + 4])) {
        4
    } else {
        0
    }
}

pub fn is_word_exec(c: char) -> (r: bool)
    ensures
        r == is_word(c),
{
    ('0' <= c && c <= '9') || ('a' <= c && c <= 'z') || ('A' <= c && c <= 'Z') || c == '_'
}

pub fn rgb_open_exec(s: &Vec<char>, i: usize) -> (o: Option<usize>)
    ensures
        match o {
            Some(v) => v == rgb_open(s@, i as int) && v <= s@.len(),
            None => rgb_open(s@, i as int) == -1,
        },
{
    proof {
        reveal_strlit("rgb(");
        reveal_strlit("rgba(");
    }
    if has_at_exec(s, i, "rgb(") {
        Some(i + 4)
    } else if has_at_exec(s, i, "rgba(") {
        Some(i + 5)
    } else {
        None
    }
}

pub fn rgb_len_exec(s: &Vec<char>, i: usize) -> (n: usize)
    ensures
        n == rgb_len(s@, i as int),
{
    let o = match rgb_open_exec(s, i) {
        Some(o) => o,
        None => {
            return 0;
        },
    };
    let e1 = skip_run(s, o, CharClass::Digit);
    if !(e1 > o && char_at_exec(s, e1, ',')) {
        return 0;
    }
    let w1 = skip_run(s, e1 + 1, CharClass::Space);
    let e2 = skip_run(s, w1, CharClass::Digit);
    if !(e2 > w1 && char_at_exec(s, e2, ',')) {
        return 0;
    }
    let w2 = skip_run(s, e2 + 1, CharClass::Space);
    let e3 = skip_run(s, w2, CharClass::Digit);
    if !(e3 > w2) {
        return 0;
    }
    if char_at_exec(s, e3, ',') {
        let w3 = skip_run(s, e3 + 1, CharClass::Space);
        let e4 = skip_run(s, w3, CharClass::DigitOrDot);
        if e4 > w3 && char_at_exec(s, e4, ')') {
            e4 + 1 - i
        } else {
            0
        }
    } else if char_at_exec(s, e3, ')') {
        e3 + 1 - i
    } else {
        0
    }
}

pub fn size_num_end_exec(s: &Vec<char>, i: usize) -> (e: usize)
    requires
        i <= s@.len(),
    ensures
        e == size_num_end(s@, i as int),
        i <= e <= s@.len(),
{
    let e1 = skip_run(s, i, CharClass::Digit);
    if char_at_exec(s, e1, '.') {
        let e2 = skip_run(s, e1 + 1, CharClass::Digit);
        if e2 > e1 + 1 {
            return e2;
        }
    }
    e1
}

pub fn size_len_exec(s: &Vec<char>, i: usize) -> (n: usize)
    ensures
        n == size_len(s@, i as int),
{
    if i >= s.len() {
        assert(run_end(s@, i as int, CharClass::Digit) == i as int);
        return 0;
    }
    let e1 = skip_run(s, i, CharClass::Digit);
    if e1 == i {
        return 0;
    }
    let e = size_num_end_exec(s, i);
    match unit_at_exec(s, e) {
        Some(u) => e + unit_text_exec(u).unicode_len() - i,
        None => 0,
    }
}

pub fn longest_value_exec(p: Property, s: &Vec<char>, w: usize) -> (r: Option<usize>)
    ensures
        match r {
            Some(k) => k as int == longest_value(property_values(p), s@, w as int, 0, -1),
            None => longest_value(property_values(p), s@, w as int, 0, -1) == -1,
        },
{
    let n = value_count(p);
    let mut cur: Option<usize> = None;
    let mut cur_len: usize = 0;
    let mut j: usize = 0;
    while j < n
        invariant
            j <= n,
            n == property_values(p).len(),
            match cur {
                Some(c) => c < j && cur_len == property_values(p)[c as int].len(),
                None => true,
            },
            longest_value(property_values(p), s@, w as int, 0, -1) == longest_value(
                property_values(p),
                s@,
                w as int,
                j as int,
                match cur {
                    Some(c) => c as int,
                    None => -1,
                },
            ),
        decreases n - j,
    {
        let v = property_value(p, j);
        let vl = v.unicode_len();
        if has_at_exec(s, w, v) && (cur.is_none() || vl > cur_len) {
            cur = Some(j);
            cur_len = vl;
        }
        j = j + 1;
    }
    cur
}

pub fn keyword_start_exec(p: Property, s: &Vec<char>, i: usize) -> (r: Option<usize>)
    ensures
        match r {
            Some(w) => w as int == keyword_start(p, s@, i as int) && i < w <= s@.len(),
            None => keyword_start(p, s@, i as int) == -1,
        },
{
    let name = property_name_exec(p);
    let n = name.unicode_len();
    if !name_start_exec(s, i) || !has_at_exec(s, i, name) {
        return None;
    }
    if !char_at_exec(s, i + n, ':') {
        return None;
    }
    Some(skip_run(s, i + n + 1, CharClass::Space))
}

pub fn keyword_len_exec(p: Property, s: &Vec<char>, i: usize) -> (n: usize)
    ensures
        n == keyword_len(p, s@, i as int),
{
    let len = s.len();
    let w = match keyword_start_exec(p, s, i) {
        Some(w) => w,
        None => {
            return 0;
        },
    };
    match longest_value_exec(p, s, w) {
        Some(k) => {
            proof {
                lemma_longest_value(property_values(p), s@, w as int, 0, -1);
            }
            let v = property_value(p, k);
            let vl = v.unicode_len();
            assert(has_at(s@, w as int, v@));
            w + vl - i
        },
        None => 0,
    }
}

pub fn overflow_colon_exec(s: &Vec<char>, i: usize) -> (r: Option<usize>)
    ensures
        match r {
            Some(c) => c as int == overflow_colon(s@, i as int) && c < s@.len(),
            None => overflow_colon(s@, i as int) == -1,
        },
{
    proof {
        reveal_strlit("overflow");
        reveal_strlit("-x:");
        reveal_strlit("-y:");
    }
    if !name_start_exec(s, i) || !has_at_exec(s, i, "overflow") {
        return None;
    }
    if has_at_exec(s, i + 8, "-x:") || has_at_exec(s, i + 8, "-y:") {
        Some(i + 10)
    } else if char_at_exec(s, i + 8, ':') {
        Some(i + 8)
    } else {
        None
    }
}

pub fn overflow_len_exec(s: &Vec<char>, i: usize) -> (n: usize)
    ensures
        n == overflow_len(s@, i as int),
{
    let len = s.len();
    let c = match overflow_colon_exec(s, i) {
        Some(c) => c,
        None => {
            return 0;
        },
    };
    if c + 1 < s.len() && s[c + 1] != ';' {
        skip_run(s, c + 1, CharClass::NotSemicolon) - i
    } else {
        0
    }
}

pub fn block_len_exec(s: &Vec<char>, i: usize) -> (n: usize)
    ensures
        n == block_len(s@, i as int),
{
    if !char_at_exec(s, i, '{') {
        return 0;
    }
    let e = skip_run(s, i + 1, CharClass::NotCloseBrace);
    if e < s.len() {
        e + 1 - i
    } else {
        0
    }
}

pub fn match_len_exec(p: Pattern, s: &Vec<char>, i: usize) -> (n: usize)
    ensures
        n == match_len(p, s@, i as int),
{
    match p {
        Pattern::HexColor => hex_len_exec(s, i),
        Pattern::RgbColor => rgb_len_exec(s, i),
        Pattern::Size => size_len_exec(s, i),
        Pattern::Keyword(q) => keyword_len_exec(q, s, i),
        Pattern::OverflowDecl => overflow_len_exec(s, i),
        Pattern::Block => block_len_exec(s, i),
    }
}

} // verus!
