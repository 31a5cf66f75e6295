//! Whole transcodes over raw XML bytes: the outside tokenizer really runs,
//! entities are resolved, whitespace between tags is dropped, structural
//! errors surface, and non-zero values survive the round trip.

use merc_opinions::model::MercOpinions;
use merc_opinions::token::{StreamError, Token};
use merc_opinions::xml::tokenize;

#[test]
fn load_example_document() {
    let input = "<MERCOPINIONS>\n\
        \t<OPINION>\n\
        \t\t<uiIndex>3</uiIndex>\n\
        \t\t<zNickname>Ice</zNickname>\n\
        \t\t<Opinion0>0</Opinion0>\n\
        \t\t<Opinion1>-5</Opinion1>\n\
        \t\t<Opinion2>0</Opinion2>\n\
        \t</OPINION>\n\
        </MERCOPINIONS>\n";
    let (m, diags) = MercOpinions::loadMercOpinions(input.as_bytes()).unwrap();
    assert_eq!(m.index, vec![3]);
    assert_eq!(m.nicknames, vec![String::from("Ice")]);
    assert_eq!(m.opinions, vec![vec![0, -5, 0]]);
    assert_eq!(diags.len(), 0);
    let out = m.saveMercOpinions();
    let expected = "<MERCOPINIONS>\n\
        \t<OPINION>\n\
        \t\t<uiIndex>3</uiIndex>\n\
        \t\t<zNickname>Ice</zNickname>\n\
        \t\t<AnOpinion id = \"1\" modifier = \"-5\"/>\n\
        \t</OPINION>\n\
        </MERCOPINIONS>\n";
    assert_eq!(out, expected);
}

#[test]
fn entities_unescape_on_read_and_escape_on_write() {
    let input = "<MERCOPINIONS><OPINION>\
        <uiIndex>1</uiIndex>\
        <zNickname>Fox &amp; Hound</zNickname>\
        </OPINION></MERCOPINIONS>";
    let (m, _) = MercOpinions::loadMercOpinions(input.as_bytes()).unwrap();
    assert_eq!(m.nicknames, vec![String::from("Fox & Hound")]);
    let out = m.saveMercOpinions();
    assert!(out.contains("<zNickname>Fox &amp; Hound</zNickname>"));
}

#[test]
fn identifier_and_label_survive_reparsing_canonical_output() {
    let m = MercOpinions {
        index: vec![42],
        nicknames: vec![String::from("A & B")],
        opinions: vec![vec![7, -5]],
    };
    let out = m.saveMercOpinions();
    let (back, diags) = MercOpinions::loadMercOpinions(out.as_bytes()).unwrap();
    assert_eq!(back.index, vec![42]);
    assert_eq!(back.nicknames, vec![String::from("A & B")]);
    assert_eq!(diags.len(), 0);
}

#[test]
fn malformed_relation_text_is_diagnosed_not_fatal() {
    let input = "<MERCOPINIONS><OPINION>\
        <uiIndex>1</uiIndex>\
        <zNickname>B</zNickname>\
        <Opinion0>many</Opinion0>\
        </OPINION></MERCOPINIONS>";
    let (m, diags) = MercOpinions::loadMercOpinions(input.as_bytes()).unwrap();
    assert_eq!(m.opinions, vec![vec![0]]);
    assert_eq!(diags.len(), 1);
    assert_eq!(diags[0].tag, "Opinion0");
    let out = m.saveMercOpinions();
    assert!(!out.contains("AnOpinion"));
}

#[test]
fn empty_label_element_reads_as_empty_and_is_reemitted() {
    let input = "<MERCOPINIONS><OPINION>\
        <uiIndex>1</uiIndex>\
        <zNickname></zNickname>\
        </OPINION></MERCOPINIONS>";
    let (m, diags) = MercOpinions::loadMercOpinions(input.as_bytes()).unwrap();
    assert_eq!(m.nicknames, vec![String::new()]);
    assert_eq!(diags.len(), 0);
    let out = m.saveMercOpinions();
    assert!(out.contains("<zNickname></zNickname>"));
}

#[test]
fn whitespace_between_tags_is_not_field_text() {
    let input = "<MERCOPINIONS>\n  <OPINION>\n    <uiIndex>  7  </uiIndex>\n  </OPINION>\n</MERCOPINIONS>";
    let (m, diags) = MercOpinions::loadMercOpinions(input.as_bytes()).unwrap();
    assert_eq!(m.index, vec![7]);
    assert_eq!(diags.len(), 0);
}

#[test]
fn mismatched_end_tag_is_malformed() {
    let input = "<MERCOPINIONS><OPINION></WRONG></OPINION></MERCOPINIONS>";
    let e = MercOpinions::loadMercOpinions(input.as_bytes()).unwrap_err();
    assert!(matches!(e, StreamError::Malformed(_)));
}

#[test]
fn truncated_document_is_fatal() {
    let input = "<MERCOPINIONS><OPINION><uiIndex>3</uiIndex>";
    assert!(MercOpinions::loadMercOpinions(input.as_bytes()).is_err());
}

#[test]
fn tokenizer_reports_real_tokens() {
    // A tokenizer that handed its input back unchanged, or dropped events,
    // would fail this: the comment must vanish and the three structural
    // events must come through in order.
    let toks = tokenize("<a><!-- note -->hi</a>".as_bytes()).unwrap();
    assert_eq!(
        toks,
        vec![
            Token::Start(String::from("a")),
            Token::Other,
            Token::Text(String::from("hi")),
            Token::End(String::from("a")),
        ]
    );
}

#[test]
fn empty_input_is_an_empty_model() {
    let (m, diags) = MercOpinions::loadMercOpinions(b"").unwrap();
    assert_eq!(m.index.len(), 0);
    assert_eq!(diags.len(), 0);
}
