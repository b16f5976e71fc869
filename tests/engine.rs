use std::collections::hash_map::DefaultHasher;
use std::hash::{Hash, Hasher};

use rand::rngs::StdRng;
use rand::SeedableRng;

use css_destroyer::colors::{
    find_hex_colors, find_rgb_colors, replace_hex_colors, replace_rgb_colors, Rgb,
};
use css_destroyer::draw::{pick_keyword, random_rgb};
use css_destroyer::layout::{find_keywords, keyword_count, layout_properties, replace_keywords};
use css_destroyer::overflow::force_overflow_visible;
use css_destroyer::patterns::{Property, Unit};
use css_destroyer::sizes::{find_sizes, replace_sizes, unrestricted_limit};
use css_destroyer::use_random;

fn rng_for(seed: &str) -> StdRng {
    let mut hasher = DefaultHasher::new();
    seed.hash(&mut hasher);
    StdRng::seed_from_u64(hasher.finish())
}

fn rgb(r: u8, g: u8, b: u8) -> Rgb {
    Rgb { r, g, b }
}

#[test]
fn random_mode_starts_above_five() {
    assert!(!use_random(0));
    assert!(!use_random(1));
    assert!(!use_random(5));
    assert!(use_random(6));
    assert!(use_random(10));
    assert!(use_random(u32::MAX));
}

#[test]
fn hex_colors_are_read_with_doubled_short_digits() {
    assert_eq!(find_hex_colors(".a{color:#ff0000;}"), vec![rgb(255, 0, 0)]);
    assert_eq!(find_hex_colors("b{color:#AbC}"), vec![rgb(0xaa, 0xbb, 0xcc)]);
    assert_eq!(find_hex_colors("#123 #fff"), vec![rgb(0x11, 0x22, 0x33), rgb(255, 255, 255)]);
}

#[test]
fn hex_needs_a_word_boundary() {
    assert!(find_hex_colors("#abcdefg").is_empty());
    assert!(find_hex_colors("#12345").is_empty());
    assert!(find_hex_colors("#12_").is_empty());
    assert_eq!(find_hex_colors("#1234-"), vec![]);
    assert_eq!(find_hex_colors("#123-"), vec![rgb(0x11, 0x22, 0x33)]);
}

#[test]
fn hex_colors_are_rewritten_lower_case() {
    let out = replace_hex_colors(".a{color:#ff0000;}", &vec![rgb(1, 2, 255)]);
    assert_eq!(out, ".a{color:#0102ff;}");
    let out = replace_hex_colors("x{c:#abc;d:#DEF}", &vec![rgb(0, 0, 0), rgb(171, 205, 239)]);
    assert_eq!(out, "x{c:#000000;d:#abcdef}");
}

#[test]
fn rgb_channels_overflowing_read_as_zero() {
    assert_eq!(find_rgb_colors("c: rgb(300, 20,3);"), vec![rgb(0, 20, 3)]);
    assert_eq!(find_rgb_colors("rgba(1,2,3,0.5)"), vec![rgb(1, 2, 3)]);
    assert_eq!(find_rgb_colors("rgb(007,  8,\t9)"), vec![rgb(7, 8, 9)]);
    assert!(find_rgb_colors("rgb( 1,2,3)").is_empty());
    assert!(find_rgb_colors("rgb(1,2,3,)").is_empty());
}

#[test]
fn rgb_rewrite_keeps_name_and_alpha() {
    assert_eq!(replace_rgb_colors("c: rgb(300, 20,3);", &vec![rgb(1, 2, 3)]), "c: rgb(1, 2, 3);");
    assert_eq!(
        replace_rgb_colors("rgba(1,2,3,0.5)", &vec![rgb(9, 8, 7)]),
        "rgba(9, 8, 7, 0.5)"
    );
    assert_eq!(
        replace_rgb_colors("rgb(1,2,3, .25)", &vec![rgb(255, 0, 10)]),
        "rgb(255, 0, 10, .25)"
    );
    assert_eq!(replace_rgb_colors("rgba(1,2,3)", &vec![rgb(4, 5, 6)]), "rgba(4, 5, 6)");
}

#[test]
fn sizes_are_found_with_their_units() {
    let found = find_sizes("width:100px;margin:1.5em 2rem;h:50%;x:3vh 4vw 5pt");
    let numbers: Vec<&str> = found.iter().map(|l| l.number.as_str()).collect();
    let units: Vec<Unit> = found.iter().map(|l| l.unit).collect();
    assert_eq!(numbers, vec!["100", "1.5", "2", "50", "3", "4", "5"]);
    assert_eq!(
        units,
        vec![Unit::Px, Unit::Em, Unit::Rem, Unit::Percent, Unit::Vh, Unit::Vw, Unit::Pt]
    );
}

#[test]
fn sizes_need_digits_right_before_the_unit() {
    assert!(find_sizes("12.px").is_empty());
    assert!(find_sizes("12 px").is_empty());
    assert!(find_sizes("line-height: 1.5;").is_empty());
    let found = find_sizes("a12.5.3px");
    assert_eq!(found.len(), 1);
    assert_eq!(found[0].number, "5.3");
}

#[test]
fn sizes_are_written_with_two_decimals() {
    let out = replace_sizes("width:100px;margin:1.5em 2rem;h:50%", &vec![12345, 0, 7, 1000]);
    assert_eq!(out, "width:123.45px;margin:0.00em 0.07rem;h:10.00%");
}

#[test]
fn unrestricted_limits_per_unit() {
    assert_eq!(unrestricted_limit(Unit::Px), 500);
    assert_eq!(unrestricted_limit(Unit::Pt), 500);
    assert_eq!(unrestricted_limit(Unit::Em), 10);
    assert_eq!(unrestricted_limit(Unit::Rem), 10);
    assert_eq!(unrestricted_limit(Unit::Percent), 200);
    assert_eq!(unrestricted_limit(Unit::Vh), 150);
    assert_eq!(unrestricted_limit(Unit::Vw), 150);
}

#[test]
fn keywords_are_matched_whole() {
    assert_eq!(find_keywords("flex-direction: row-reverse;", Property::FlexDirection), vec![1]);
    assert_eq!(find_keywords("flex-direction: row;", Property::FlexDirection), vec![0]);
    assert_eq!(find_keywords("flex-direction:column-reverse", Property::FlexDirection), vec![3]);
    assert_eq!(find_keywords("display:inline-block", Property::Display), vec![2]);
    assert_eq!(find_keywords("display:inline", Property::Display), vec![1]);
    assert_eq!(find_keywords("a{float:none} b{float: left}", Property::Float), vec![2, 0]);
    assert!(find_keywords("position: inherit", Property::Position).is_empty());
    assert_eq!(
        find_keywords("justify-content:\n space-evenly", Property::JustifyContent),
        vec![5]
    );
}

#[test]
fn keywords_are_replaced_or_kept() {
    let text = "a{text-align:left} b{text-align:  center}";
    let out = replace_keywords(text, Property::TextAlign, &vec![Some(3), None]);
    assert_eq!(out, "a{text-align: justify} b{text-align:  center}");
    let out = replace_keywords("flex-direction: row-reverse;", Property::FlexDirection, &vec![Some(3)]);
    assert_eq!(out, "flex-direction: column-reverse;");
    let out = replace_keywords("a{display: inline-block}", Property::Display, &vec![Some(0)]);
    assert_eq!(out, "a{display: block}");
}

#[test]
fn layout_tables() {
    let props = layout_properties();
    assert_eq!(props.len(), 7);
    let counts: Vec<usize> = props.iter().map(|p| keyword_count(*p)).collect();
    assert_eq!(counts, vec![4, 5, 6, 4, 5, 6, 3]);
}

#[test]
fn overflow_declarations_become_visible() {
    assert_eq!(
        force_overflow_visible(".a{overflow:hidden;color:red}"),
        ".a{overflow: visible;color:red}"
    );
    assert_eq!(
        force_overflow_visible(".a{overflow-x: scroll; overflow-y:auto;}"),
        ".a{overflow-x: visible; overflow-y: visible;}"
    );
}

#[test]
fn blocks_without_overflow_gain_one() {
    assert_eq!(force_overflow_visible(".b{color:red}"), ".b{ overflow: visible;color:red }");
    assert_eq!(force_overflow_visible("{}"), "{ overflow: visible; }");
    assert_eq!(force_overflow_visible("a{ b"), "a{ b");
    assert_eq!(force_overflow_visible(".c{text-overflow:clip}"), ".c{text-overflow:clip}");
}

#[test]
fn forcing_twice_adds_nothing() {
    let docs = [
        ".a{color:#ff0000;width:100px;}",
        ".a{overflow:hidden} .b{margin:0} .c{overflow-y:scroll;x:1}",
        "@media x { .a{b:c} } tail { no close",
        "overflow:;{overflow}",
    ];
    for d in docs.iter() {
        let once = force_overflow_visible(d);
        let twice = force_overflow_visible(&once);
        assert_eq!(once, twice);
        assert_eq!(once.matches("overflow: visible").count(), twice.matches("overflow: visible").count());
    }
}

#[test]
fn low_level_scenario_leaves_overflow_alone() {
    let doc = ".a{color:#ff0000;width:100px;}";
    assert!(!use_random(1));
    assert_eq!(find_hex_colors(doc), vec![rgb(255, 0, 0)]);
    let out = replace_hex_colors(doc, &vec![rgb(250, 3, 0)]);
    let found = find_sizes(&out);
    assert_eq!(found.len(), 1);
    assert_eq!(found[0].number, "100");
    let out = replace_sizes(&out, &vec![10312]);
    assert_eq!(out, ".a{color:#fa0300;width:103.12px;}");
    assert!(!out.contains("overflow"));
}

#[test]
fn high_level_scenario_gains_overflow() {
    let doc = ".a{color:#ff0000;width:100px;}";
    assert!(use_random(10));
    let mut rng = rng_for("x");
    let colors = vec![random_rgb(&mut rng)];
    let out = replace_hex_colors(doc, &colors);
    let out = replace_sizes(&out, &vec![99999]);
    let out = force_overflow_visible(&out);
    assert!(out.starts_with(".a{ overflow: visible;color:#"));
    assert!(out.ends_with(";width:999.99px; }"));
}

#[test]
fn same_seed_same_draws() {
    let mut a = rng_for("x");
    let mut b = rng_for("x");
    for _ in 0..20 {
        assert_eq!(random_rgb(&mut a), random_rgb(&mut b));
        assert_eq!(pick_keyword(&mut a, Property::Display), pick_keyword(&mut b, Property::Display));
    }
}

#[test]
fn different_seeds_different_colors() {
    let doc = ".a{color:#ff0000;width:100px;} .b{color:#00ff00}";
    let mut a = rng_for("a");
    let mut b = rng_for("b");
    let ca: Vec<Rgb> = (0..2).map(|_| random_rgb(&mut a)).collect();
    let cb: Vec<Rgb> = (0..2).map(|_| random_rgb(&mut b)).collect();
    assert_ne!(replace_hex_colors(doc, &ca), replace_hex_colors(doc, &cb));
}

#[test]
fn picked_keywords_stay_in_the_table() {
    let mut rng = rng_for("k");
    for p in layout_properties() {
        for _ in 0..50 {
            assert!(pick_keyword(&mut rng, p) < keyword_count(p));
        }
    }
}

#[test]
fn empty_document_is_left_empty() {
    assert!(find_hex_colors("").is_empty());
    assert!(find_rgb_colors("").is_empty());
    assert!(find_sizes("").is_empty());
    assert!(find_keywords("", Property::Float).is_empty());
    assert_eq!(replace_hex_colors("", &vec![]), "");
    assert_eq!(replace_sizes("", &vec![]), "");
    assert_eq!(force_overflow_visible(""), "");
}

#[test]
fn text_without_constructs_is_unchanged() {
    let doc = "body { color: red; margin: auto }";
    assert!(find_hex_colors(doc).is_empty());
    assert!(find_rgb_colors(doc).is_empty());
    assert!(find_sizes(doc).is_empty());
    assert_eq!(replace_hex_colors(doc, &vec![]), doc);
    assert_eq!(replace_rgb_colors(doc, &vec![]), doc);
    assert_eq!(replace_sizes(doc, &vec![]), doc);
    assert_eq!(replace_keywords(doc, Property::Display, &vec![]), doc);
}

#[test]
fn largest_sizes_are_written_whole() {
    let out = replace_sizes("w:1px", &vec![u64::MAX]);
    assert_eq!(out, "w:184467440737095516.15px");
}

#[test]
fn property_names_must_stand_alone() {
    assert!(find_keywords("background-position: center", Property::Position).is_empty());
    assert!(find_keywords("xfloat: left", Property::Float).is_empty());
    assert_eq!(find_keywords("a{position:fixed}", Property::Position), vec![3]);
    assert_eq!(force_overflow_visible("a{text-overflow:ellipsis;overflow:auto;}"), "a{text-overflow:ellipsis;overflow: visible;}");
}

#[test]
fn written_channels_stay_in_byte_range() {
    let doc = "a{color: rgb(999, 0, 0)} b{color:#fff}";
    assert_eq!(find_rgb_colors(doc), vec![rgb(0, 0, 0)]);
    let mut rng = rng_for("range");
    let c = random_rgb(&mut rng);
    let out = replace_rgb_colors(doc, &vec![c]);
    assert_eq!(out, format!("a{{color: rgb({}, {}, {})}} b{{color:#fff}}", c.r, c.g, c.b));
    let out = replace_hex_colors(&out, &vec![rgb(255, 255, 255)]);
    assert!(out.ends_with("b{color:#ffffff}"));
}
