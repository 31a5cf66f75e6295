//! The record reader over hand-built token streams: row boundaries, field
//! dispatch, relation-slot handling, diagnostics, and fatal truncation.

use merc_opinions::config::Config;
use merc_opinions::model::MercOpinions;
use merc_opinions::token::{StreamError, Token};

fn start(s: &str) -> Token {
    Token::Start(String::from(s))
}

fn text(s: &str) -> Token {
    Token::Text(String::from(s))
}

fn end(s: &str) -> Token {
    Token::End(String::from(s))
}

fn field(tag: &str, value: &str) -> Vec<Token> {
    vec![start(tag), text(value), end(tag)]
}

fn row(fields: &[(&str, &str)]) -> Vec<Token> {
    let mut toks = vec![start("OPINION")];
    for (tag, value) in fields {
        toks.extend(field(tag, value));
    }
    toks.push(end("OPINION"));
    toks
}

#[test]
fn empty_stream_is_empty_model() {
    let toks: Vec<Token> = Vec::new();
    let (m, diags) = MercOpinions::from_tokens(&toks).unwrap();
    assert_eq!(m.index.len(), 0);
    assert_eq!(m.nicknames.len(), 0);
    assert_eq!(m.opinions.len(), 0);
    assert_eq!(diags.len(), 0);
}

#[test]
fn one_full_row() {
    let toks = row(&[("uiIndex", "3"), ("zNickname", "Ice"), ("Opinion0", "0"), ("Opinion1", "-5")]);
    let (m, diags) = MercOpinions::from_tokens(&toks).unwrap();
    assert_eq!(m.index, vec![3]);
    assert_eq!(m.nicknames, vec![String::from("Ice")]);
    assert_eq!(m.opinions, vec![vec![0, -5]]);
    assert_eq!(diags.len(), 0);
}

#[test]
fn two_rows_in_insertion_order() {
    let mut toks = row(&[("uiIndex", "9"), ("zNickname", "B")]);
    toks.extend(row(&[("uiIndex", "2"), ("zNickname", "A"), ("Opinion0", "1")]));
    let (m, _) = MercOpinions::from_tokens(&toks).unwrap();
    assert_eq!(m.index, vec![9, 2]);
    assert_eq!(m.nicknames, vec![String::from("B"), String::from("A")]);
    assert_eq!(m.opinions, vec![Vec::<i32>::new(), vec![1]]);
}

#[test]
fn row_without_fields_takes_defaults() {
    let toks = row(&[]);
    let (m, _) = MercOpinions::from_tokens(&toks).unwrap();
    assert_eq!(m.index, vec![0]);
    assert_eq!(m.nicknames, vec![String::new()]);
    assert_eq!(m.opinions, vec![Vec::<i32>::new()]);
}

#[test]
fn slot_zero_begins_a_new_sequence() {
    let toks = row(&[("Opinion0", "1"), ("Opinion1", "2"), ("Opinion0", "9")]);
    let (m, _) = MercOpinions::from_tokens(&toks).unwrap();
    assert_eq!(m.opinions, vec![vec![9]]);
}

#[test]
fn later_slot_without_slot_zero_appends_to_empty_row() {
    let toks = row(&[("Opinion5", "7"), ("Opinion9", "8")]);
    let (m, _) = MercOpinions::from_tokens(&toks).unwrap();
    assert_eq!(m.opinions, vec![vec![7, 8]]);
}

#[test]
fn slots_append_in_order_of_appearance() {
    let toks = row(&[("Opinion0", "10"), ("Opinion2", "20"), ("Opinion1", "30")]);
    let (m, _) = MercOpinions::from_tokens(&toks).unwrap();
    assert_eq!(m.opinions, vec![vec![10, 20, 30]]);
}

#[test]
fn highest_slot_name_is_recognized() {
    let toks = row(&[("Opinion254", "4")]);
    let (m, _) = MercOpinions::from_tokens(&toks).unwrap();
    assert_eq!(m.opinions, vec![vec![4]]);
}

#[test]
fn out_of_range_slot_name_is_ignored() {
    let toks = row(&[("Opinion255", "4")]);
    let (m, diags) = MercOpinions::from_tokens(&toks).unwrap();
    assert_eq!(m.opinions, vec![Vec::<i32>::new()]);
    assert_eq!(diags.len(), 0);
}

#[test]
fn zero_padded_slot_name_is_ignored() {
    let toks = row(&[("Opinion007", "4")]);
    let (m, _) = MercOpinions::from_tokens(&toks).unwrap();
    assert_eq!(m.opinions, vec![Vec::<i32>::new()]);
}

#[test]
fn unknown_tags_are_ignored() {
    let toks = row(&[("uiIndex", "1"), ("szWeaponName", "irrelevant"), ("zNickname", "C")]);
    let (m, diags) = MercOpinions::from_tokens(&toks).unwrap();
    assert_eq!(m.index, vec![1]);
    assert_eq!(m.nicknames, vec![String::from("C")]);
    assert_eq!(diags.len(), 0);
}

#[test]
fn top_level_noise_is_ignored() {
    let mut toks = vec![start("MERCOPINIONS"), text("stray"), Token::Other];
    toks.extend(row(&[("uiIndex", "5")]));
    toks.push(end("MERCOPINIONS"));
    let (m, _) = MercOpinions::from_tokens(&toks).unwrap();
    assert_eq!(m.index, vec![5]);
}

#[test]
fn absent_label_text_yields_empty_label() {
    let toks = vec![start("OPINION"), start("zNickname"), end("zNickname"), end("OPINION")];
    let (m, diags) = MercOpinions::from_tokens(&toks).unwrap();
    assert_eq!(m.nicknames, vec![String::new()]);
    assert_eq!(diags.len(), 0);
}

#[test]
fn malformed_relation_text_defaults_to_zero_with_diagnostic() {
    let toks = row(&[("uiIndex", "1"), ("Opinion0", "many")]);
    let (m, diags) = MercOpinions::from_tokens(&toks).unwrap();
    assert_eq!(m.opinions, vec![vec![0]]);
    assert_eq!(diags.len(), 1);
    assert_eq!(diags[0].tag, "Opinion0");
    assert_eq!(diags[0].position, 4);
}

#[test]
fn malformed_identifier_text_defaults_to_zero_with_diagnostic() {
    let toks = row(&[("uiIndex", "many")]);
    let (m, diags) = MercOpinions::from_tokens(&toks).unwrap();
    assert_eq!(m.index, vec![0]);
    assert_eq!(diags.len(), 1);
    assert_eq!(diags[0].tag, "uiIndex");
    assert_eq!(diags[0].position, 1);
}

#[test]
fn duplicate_identifier_tag_last_wins() {
    let toks = row(&[("uiIndex", "1"), ("uiIndex", "2")]);
    let (m, _) = MercOpinions::from_tokens(&toks).unwrap();
    assert_eq!(m.index, vec![2]);
}

#[test]
fn stream_ending_mid_row_is_truncated() {
    let toks = vec![start("OPINION"), start("uiIndex"), text("3")];
    assert_eq!(MercOpinions::from_tokens(&toks).unwrap_err(), StreamError::Truncated);
}

#[test]
fn stream_ending_mid_field_is_truncated() {
    let toks = vec![start("OPINION"), start("uiIndex")];
    assert_eq!(MercOpinions::from_tokens(&toks).unwrap_err(), StreamError::Truncated);
}

#[test]
fn truncation_in_second_row_keeps_nothing() {
    let mut toks = row(&[("uiIndex", "1")]);
    toks.push(start("OPINION"));
    assert!(MercOpinions::from_tokens(&toks).is_err());
}

#[test]
fn config_needs_an_argument() {
    let args = vec![String::from("prog")];
    let e = Config::new(&args).unwrap_err();
    assert!(e.starts_with("Not enough arguments!"));
}

#[test]
fn config_takes_first_real_argument() {
    let args = vec![String::from("prog"), String::from("data/in.xml"), String::from("extra")];
    let c = Config::new(&args).unwrap();
    assert_eq!(c.xmlfilepath, "data/in.xml");
}
