//! The canonical writer: exact output text, the omit-zero rule for relation
//! modifiers, forced emission of identifier and label, escaping, and the
//! fixed-point behaviour of the canonical form.

use merc_opinions::model::MercOpinions;
use merc_opinions::writer::{write_tag_i, write_tag_s};

fn model(rows: Vec<(u8, &str, Vec<i32>)>) -> MercOpinions {
    let mut m = MercOpinions {
        index: Vec::new(),
        nicknames: Vec::new(),
        opinions: Vec::new(),
    };
    for (id, label, rels) in rows {
        m.index.push(id);
        m.nicknames.push(String::from(label));
        m.opinions.push(rels);
    }
    m
}

#[test]
fn empty_model_is_bare_root() {
    let m = model(vec![]);
    assert_eq!(m.saveMercOpinions(), "<MERCOPINIONS>\n</MERCOPINIONS>\n");
}

#[test]
fn one_sparse_row_exact_text() {
    // One row with identifier 3, label Ice, slots 0 and 2 zero, slot 1
    // holding -5: exactly one relation element must appear.
    let m = model(vec![(3, "Ice", vec![0, -5, 0])]);
    let expected = "<MERCOPINIONS>\n\
        \t<OPINION>\n\
        \t\t<uiIndex>3</uiIndex>\n\
        \t\t<zNickname>Ice</zNickname>\n\
        \t\t<AnOpinion id = \"1\" modifier = \"-5\"/>\n\
        \t</OPINION>\n\
        </MERCOPINIONS>\n";
    assert_eq!(m.saveMercOpinions(), expected);
}

#[test]
fn identifier_zero_is_still_emitted() {
    let m = model(vec![(0, "Zed", vec![])]);
    let out = m.saveMercOpinions();
    assert!(out.contains("<uiIndex>0</uiIndex>"));
}

#[test]
fn empty_label_is_still_emitted() {
    let m = model(vec![(1, "", vec![])]);
    let out = m.saveMercOpinions();
    assert!(out.contains("<zNickname></zNickname>"));
}

#[test]
fn all_zero_relations_vanish() {
    let m = model(vec![(1, "A", vec![0, 0, 0, 0])]);
    let out = m.saveMercOpinions();
    assert!(!out.contains("AnOpinion"));
}

#[test]
fn ampersand_is_escaped() {
    let m = model(vec![(1, "Fox & Hound & Co", vec![])]);
    let out = m.saveMercOpinions();
    assert!(out.contains("<zNickname>Fox &amp; Hound &amp; Co</zNickname>"));
}

#[test]
fn identifiers_need_not_be_contiguous() {
    // The writer addresses rows by insertion position; the identifier is
    // data, so arbitrary values in arbitrary order come through.
    let m = model(vec![(200, "B", vec![1]), (3, "A", vec![])]);
    let out = m.saveMercOpinions();
    let b = out.find("<uiIndex>200</uiIndex>").unwrap();
    let a = out.find("<uiIndex>3</uiIndex>").unwrap();
    assert!(b < a);
}

#[test]
fn slot_independence_zeroing_one_slot() {
    let with_all = model(vec![(1, "A", vec![4, 5, 6])]);
    let zeroed = model(vec![(1, "A", vec![4, 0, 6])]);
    let out_all = with_all.saveMercOpinions();
    let out_zeroed = zeroed.saveMercOpinions();
    assert!(out_all.contains("<AnOpinion id = \"0\" modifier = \"4\"/>"));
    assert!(out_all.contains("<AnOpinion id = \"1\" modifier = \"5\"/>"));
    assert!(out_all.contains("<AnOpinion id = \"2\" modifier = \"6\"/>"));
    assert!(out_zeroed.contains("<AnOpinion id = \"0\" modifier = \"4\"/>"));
    assert!(!out_zeroed.contains("id = \"1\""));
    assert!(out_zeroed.contains("<AnOpinion id = \"2\" modifier = \"6\"/>"));
}

#[test]
fn slot_independence_reinstating_one_slot() {
    let m = model(vec![(1, "A", vec![4, 9, 6])]);
    let out = m.saveMercOpinions();
    assert!(out.contains("<AnOpinion id = \"1\" modifier = \"9\"/>"));
    assert_eq!(out.matches("id = \"1\"").count(), 1);
}

#[test]
fn writer_is_a_fixed_point() {
    // A model rebuilt from the writer's own output — zero slots dropped,
    // rows densified up to their last non-zero slot — writes the very same
    // bytes.
    let first = model(vec![(7, "A&B", vec![0, 5, 0, -2, 0]), (9, "C", vec![3, 0])]);
    let out1 = first.saveMercOpinions();
    let rebuilt = model(vec![(7, "A&B", vec![0, 5, 0, -2]), (9, "C", vec![3])]);
    let out2 = rebuilt.saveMercOpinions();
    assert_eq!(out1, out2);
}

#[test]
fn extreme_modifier_values() {
    let m = model(vec![(255, "X", vec![-2147483648, 2147483647])]);
    let out = m.saveMercOpinions();
    assert!(out.contains("<uiIndex>255</uiIndex>"));
    assert!(out.contains("<AnOpinion id = \"0\" modifier = \"-2147483648\"/>"));
    assert!(out.contains("<AnOpinion id = \"1\" modifier = \"2147483647\"/>"));
}

#[test]
fn tag_helpers_respect_force_mode() {
    let mut s = String::new();
    write_tag_i(&mut s, 0, "uiIndex", false);
    assert_eq!(s, "");
    write_tag_i(&mut s, 0, "uiIndex", true);
    assert_eq!(s, "\t\t<uiIndex>0</uiIndex>\n");
    let mut t = String::new();
    write_tag_s(&mut t, "", "zNickname", false);
    assert_eq!(t, "");
    write_tag_s(&mut t, "A&B", "zNickname", true);
    assert_eq!(t, "\t\t<zNickname>A&amp;B</zNickname>\n");
    let mut u = String::new();
    write_tag_i(&mut u, -7, "Opinion3", false);
    assert_eq!(u, "\t\t<Opinion3>-7</Opinion3>\n");
}
