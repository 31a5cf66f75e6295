//! The record reader: a two-state machine over the token stream. Outside a
//! row it only reacts to the row-start marker; inside a row it dispatches
//! each child start tag — the identifier tag, the label tag, or one of the
//! 255 relation-slot tags — to the scalar field parsers, and makes the row
//! durable only when the row-end marker arrives. `spec_row` and `spec_load`
//! are the reference semantics; the executable functions return exactly what
//! they describe.

use vstd::prelude::*;
use crate::model::{MercOpinions, ModelView, RowView};
use crate::scalar::{lemma_scan_advances, spec_scan};
use crate::scalar::{parseString, parsei32, parseu8, scal_i32, scal_string, scal_u8};
use crate::text::{all_digits, dec_val, digit_u8_of, str_eq};
use crate::token::{DiagView, Diagnostic, StreamError, Token};
use vstd::string::StrSliceExecFns;
use vstd::string::StringExecFns;

verus! {

// ---------------------------------------------------------------------------
// Tag recognition
// ---------------------------------------------------------------------------

/// A relation-slot suffix: at least one digit, no leading zero (except the
/// single digit zero itself), value at most 254.
pub open spec fn valid_slot_digits(s: Seq<char>) -> bool {
    &&& s.len() > 0
    &&& all_digits(s)
    &&& (s.len() == 1 || s[0] != '0')
    &&& dec_val(s) <= 254
}

/// The relation-slot recognizer: `Opinion0` through `Opinion254`, written
/// exactly (no sign, no leading zeros), each mapped to its slot number.
/// Any other tag name is no slot.
pub open spec fn slot_of(name: Seq<char>) -> Option<nat> {
    if name.len() > 7 && name.take(7) == "Opinion"@ && valid_slot_digits(name.skip(7)) {
        Some(dec_val(name.skip(7)))
    } else {
        None
    }
}

/// Recognizes a relation-slot tag name, exactly as `slot_of` describes.
pub fn slot_of_name(name: &str) -> (r: Option<u8>)
    ensures
        match r {
            Some(v) => slot_of(name@) == Some(v as nat),
            None => slot_of(name@) is None,
        },
{
    proof {
        reveal_strlit("Opinion");
    }
    let pref = "Opinion";
    let n = name.unicode_len();
    if n <= 7 {
        return None;
    }
    let mut i: usize = 0;
    while i < 7
        invariant
            i <= 7,
            n == name@.len(),
            n > 7,
            pref@ == "Opinion"@,
            pref@.len() == 7,
            name@.take(i as int) == pref@.take(i as int),
        decreases 7 - i,
    {
        if name.get_char(i) != pref.get_char(i) {
            proof {
                assert(name@.take(7)[i as int] == name@[i as int]);
                assert(pref@.take(7) =~= pref@);
            }
            return None;
        }
        proof {
            assert(name@.take(i + 1) =~= name@.take(i as int).push(name@[i as int]));
            assert(pref@.take(i + 1) =~= pref@.take(i as int).push(pref@[i as int]));
        }
        i += 1;
    }
    proof {
        assert(pref@.take(7) =~= pref@);
        assert(name@.take(7) == "Opinion"@);
    }
    // The digits: all of them must be digits, read with a cap just above the
    // largest slot so an oversized numeral is still rejected exactly.
    let mut j: usize = 7;
    let mut acc: u32 = 0;
    while j < n
        invariant
            7 <= j <= n,
            n == name@.len(),
            all_digits(name@.subrange(7, j as int)),
            acc <= 255,
            dec_val(name@.subrange(7, j as int)) <= 254 ==> acc == dec_val(
                name@.subrange(7, j as int),
            ),
            dec_val(name@.subrange(7, j as int)) > 254 ==> acc > 254,
        decreases n - j,
    {
        let d = digit_u8_of(name.get_char(j));
        if d >= 10 {
            proof {
                assert(name@.skip(7)[j - 7] == name@[j as int]);
            }
            return None;
        }
        let ghost pre = name@.subrange(7, j as int);
        let t: u32 = acc * 10 + (d as u32);
        acc = if t > 255 {
            255
        } else {
            t
        };
        proof {
            let post = name@.subrange(7, j + 1);
            assert(post.drop_last() =~= pre);
            assert(post.last() == name@[j as int]);
            assert(dec_val(post) == dec_val(pre) * 10 + (d as nat));
        }
        j += 1;
    }
    proof {
        assert(name@.subrange(7, n as int) =~= name@.skip(7));
    }
    if name.get_char(7) == '0' && n > 8 {
        return None;
    }
    if acc > 254 {
        return None;
    }
    Some(acc as u8)
}

// ---------------------------------------------------------------------------
// Reference semantics of one reader pass
// ---------------------------------------------------------------------------

/// One diagnostic when a field's text was malformed, none otherwise.
pub open spec fn diag_if(malformed: bool, tag: Seq<char>, pos: int) -> Seq<DiagView> {
    if malformed {
        seq![DiagView { tag: tag, position: pos }]
    } else {
        Seq::empty()
    }
}

/// The in-row state machine, from position `i` with the partial row `row`
/// and the diagnostics `ds` so far: dispatches child tags until the row-end
/// marker makes the row durable, and fails (`None`) exactly when the stream
/// ends first. Yields the completed row, the diagnostics, and the position
/// just past the row-end marker.
pub open spec fn spec_row(toks: Seq<Token>, i: int, row: RowView, ds: Seq<DiagView>) -> Option<
    (RowView, Seq<DiagView>, int),
>
    decreases toks.len() - i,
    via spec_row_dec
{
    if i < 0 || i >= toks.len() {
        None
    } else {
        match toks[i] {
            Token::End(name) => if name@ == "OPINION"@ {
                Some((row, ds, i + 1))
            } else {
                spec_row(toks, i + 1, row, ds)
            },
            Token::Start(name) => if name@ == "uiIndex"@ {
                match spec_scan(toks, i + 1) {
                    None => None,
                    Some((t, k)) => spec_row(
                        toks,
                        k,
                        (RowView { id: scal_u8(t).0, label: row.label, rels: row.rels }),
                        ds + diag_if(scal_u8(t).1, name@, i),
                    ),
                }
            } else if name@ == "zNickname"@ {
                match spec_scan(toks, i + 1) {
                    None => None,
                    Some((t, k)) => spec_row(
                        toks,
                        k,
                        (RowView { id: row.id, label: scal_string(t), rels: row.rels }),
                        ds,
                    ),
                }
            } else if slot_of(name@) is Some {
                match spec_scan(toks, i + 1) {
                    None => None,
                    Some((t, k)) => spec_row(
                        toks,
                        k,
                        (RowView {
                            id: row.id,
                            label: row.label,
                            rels: if slot_of(name@) == Some(0nat) {
                                seq![scal_i32(t).0]
                            } else {
                                row.rels.push(scal_i32(t).0)
                            },
                        }),
                        ds + diag_if(scal_i32(t).1, name@, i),
                    ),
                }
            } else {
                spec_row(toks, i + 1, row, ds)
            },
            _ => spec_row(toks, i + 1, row, ds),
        }
    }
}

#[via_fn]
proof fn spec_row_dec(toks: Seq<Token>, i: int, row: RowView, ds: Seq<DiagView>) {
    if 0 <= i < toks.len() {
        lemma_scan_advances(toks, i + 1);
    }
}

/// A completed row always ends past where it began and inside the stream.
pub proof fn lemma_row_advances(toks: Seq<Token>, i: int, row: RowView, ds: Seq<DiagView>)
    ensures
        spec_row(toks, i, row, ds) matches Some((r, d, k)) ==> i < k <= toks.len(),
    decreases toks.len() - i,
{
    if 0 <= i < toks.len() {
        lemma_scan_advances(toks, i + 1);
        match toks[i] {
            Token::End(name) => {
                if name@ != "OPINION"@ {
                    lemma_row_advances(toks, i + 1, row, ds);
                }
            },
            Token::Start(name) => {
                if name@ == "uiIndex"@ {
                    match spec_scan(toks, i + 1) {
                        None => {},
                        Some((t, k)) => {
                            lemma_row_advances(
                                toks,
                                k,
                                (RowView { id: scal_u8(t).0, label: row.label, rels: row.rels }),
                                ds + diag_if(scal_u8(t).1, name@, i),
                            );
                        },
                    }
                } else if name@ == "zNickname"@ {
                    match spec_scan(toks, i + 1) {
                        None => {},
                        Some((t, k)) => {
                            lemma_row_advances(
                                toks,
                                k,
                                (RowView { id: row.id, label: scal_string(t), rels: row.rels }),
                                ds,
                            );
                        },
                    }
                } else if slot_of(name@) is Some {
                    match spec_scan(toks, i + 1) {
                        None => {},
                        Some((t, k)) => {
                            lemma_row_advances(
                                toks,
                                k,
                                (RowView {
                                    id: row.id,
                                    label: row.label,
                                    rels: if slot_of(name@) == Some(0nat) {
                                        seq![scal_i32(t).0]
                                    } else {
                                        row.rels.push(scal_i32(t).0)
                                    },
                                }),
                                ds + diag_if(scal_i32(t).1, name@, i),
                            );
                        },
                    }
                } else {
                    lemma_row_advances(toks, i + 1, row, ds);
                }
            },
            _ => {
                lemma_row_advances(toks, i + 1, row, ds);
            },
        }
    }
}

/// The whole reader pass, from position `i` with the rows read so far:
/// outside a row, only the row-start marker matters; everything else is
/// ignored. Running off the end of the stream outside a row is success.
pub open spec fn spec_load(toks: Seq<Token>, i: int, m: ModelView, ds: Seq<DiagView>) -> Option<
    (ModelView, Seq<DiagView>),
>
    decreases toks.len() - i,
    via spec_load_dec
{
    if i < 0 || i >= toks.len() {
        Some((m, ds))
    } else {
        match toks[i] {
            Token::Start(name) => if name@ == "OPINION"@ {
                match spec_row(toks, i + 1, RowView::empty(), ds) {
                    None => None,
                    Some((r, ds2, k)) => spec_load(toks, k, m.push_row(r), ds2),
                }
            } else {
                spec_load(toks, i + 1, m, ds)
            },
            _ => spec_load(toks, i + 1, m, ds),
        }
    }
}

#[via_fn]
proof fn spec_load_dec(toks: Seq<Token>, i: int, m: ModelView, ds: Seq<DiagView>) {
    if 0 <= i < toks.len() {
        lemma_row_advances(toks, i + 1, RowView::empty(), ds);
    }
}

// ---------------------------------------------------------------------------
// The executable reader
// ---------------------------------------------------------------------------

impl MercOpinions {
    /// Reads one row, the stream standing just past its row-start marker:
    /// dispatches child fields until the row-end marker, then appends the
    /// completed row to the model in one step and returns the position just
    /// past the marker. Malformed field text is recorded in `diags` and the
    /// field defaults; the stream ending mid-row is the only failure.
    #[allow(non_snake_case)]
    pub fn readItem(&mut self, tokens: &Vec<Token>, i: usize, diags: &mut Vec<Diagnostic>) -> (r:
        Result<usize, StreamError>)
        requires
            i <= tokens@.len(),
        ensures
            match r {
                Ok(k) => {
                    &&& spec_row(tokens@, i as int, RowView::empty(), old(diags).deep_view())
                        matches Some((rv, dv, k2))
                    &&& k2 == k as int
                    &&& i < k <= tokens@.len()
                    &&& final(diags).deep_view() == dv
                    &&& final(self)@ == old(self)@.push_row(rv)
                },
                Err(e) => {
                    &&& spec_row(tokens@, i as int, RowView::empty(), old(diags).deep_view())
                        is None
                    &&& e == StreamError::Truncated
                    &&& final(self)@ == old(self)@
                },
            },
    {
        let n = tokens.len();
        let mut j = i;
        let mut row_id: u8 = 0;
        let mut row_label: String = String::new();
        let mut rels: Vec<i32> = Vec::new();
        while j < n
            invariant
                i <= j <= n,
                n == tokens@.len(),
                self@ == old(self)@,
                spec_row(tokens@, i as int, RowView::empty(), old(diags).deep_view()) == spec_row(
                    tokens@,
                    j as int,
                    (RowView { id: row_id, label: row_label@, rels: rels@ }),
                    diags.deep_view(),
                ),
            decreases n - j,
        {
            let ghost row_g = RowView { id: row_id, label: row_label@, rels: rels@ };
            let ghost ds_g = diags.deep_view();
            match &tokens[j] {
                Token::End(name) => {
                    if str_eq(name.as_str(), "OPINION") {
                        let k = j + 1;
                        self.push_row(row_id, row_label, rels);
                        return Ok(k);
                    } else {
                        j += 1;
                    }
                },
                Token::Start(name) => {
                    if str_eq(name.as_str(), "uiIndex") {
                        match parseu8(tokens, j + 1) {
                            Err(e) => {
                                return Err(e);
                            },
                            Ok((p, k)) => {
                                row_id = p.value;
                                if p.malformed {
                                    let d = Diagnostic {
                                        tag: String::from_str("uiIndex"),
                                        position: j,
                                    };
                                    diags.push(d);
                                    proof {
                                        assert(diags.deep_view() =~= ds_g + diag_if(
                                            true,
                                            name@,
                                            j as int,
                                        ));
                                    }
                                } else {
                                    proof {
                                        assert(diags.deep_view() =~= ds_g + diag_if(
                                            false,
                                            name@,
                                            j as int,
                                        ));
                                    }
                                }
                                j = k;
                            },
                        }
                    } else if str_eq(name.as_str(), "zNickname") {
                        match parseString(tokens, j + 1) {
                            Err(e) => {
                                return Err(e);
                            },
                            Ok((v, k)) => {
                                row_label = v;
                                j = k;
                            },
                        }
                    } else {
                        match slot_of_name(name.as_str()) {
                            Some(slot) => {
                                match parsei32(tokens, j + 1) {
                                    Err(e) => {
                                        return Err(e);
                                    },
                                    Ok((p, k)) => {
                                        if slot == 0 {
                                            let mut nv: Vec<i32> = Vec::new();
                                            nv.push(p.value);
                                            rels = nv;
                                            proof {
                                                assert(rels@ =~= seq![p.value]);
                                            }
                                        } else {
                                            rels.push(p.value);
                                        }
                                        if p.malformed {
                                            let d = Diagnostic { tag: name.clone(), position: j };
                                            diags.push(d);
                                            proof {
                                                assert(diags.deep_view() =~= ds_g + diag_if(
                                                    true,
                                                    name@,
                                                    j as int,
                                                ));
                                            }
                                        } else {
                                            proof {
                                                assert(diags.deep_view() =~= ds_g + diag_if(
                                                    false,
                                                    name@,
                                                    j as int,
                                                ));
                                            }
                                        }
                                        j = k;
                                    },
                                }
                            },
                            None => {
                                j += 1;
                            },
                        }
                    }
                },
                _ => {
                    j += 1;
                },
            }
        }
        Err(StreamError::Truncated)
    }

    /// One whole reader pass over a token stream: builds the model that
    /// `spec_load` assigns to the stream, with the diagnostics of every
    /// malformed field, or reports the truncation that `spec_load` rejects.
    pub fn from_tokens(tokens: &Vec<Token>) -> (r: Result<
        (MercOpinions, Vec<Diagnostic>),
        StreamError,
    >)
        ensures
            match spec_load(tokens@, 0, ModelView::empty(), Seq::empty()) {
                Some((mv, dv)) => r matches Ok(p) && p.0@ == mv && p.1.deep_view() == dv
                    && mv.wf(),
                None => r matches Err(e) && e == StreamError::Truncated,
            },
    {
        let mut m = MercOpinions::new();
        let mut diags: Vec<Diagnostic> = Vec::new();
        let n = tokens.len();
        let mut j: usize = 0;
        proof {
            assert(diags.deep_view() =~= Seq::<DiagView>::empty());
        }
        while j < n
            invariant
                j <= n,
                n == tokens@.len(),
                m@.wf(),
                spec_load(tokens@, 0, ModelView::empty(), Seq::empty()) == spec_load(
                    tokens@,
                    j as int,
                    m@,
                    diags.deep_view(),
                ),
            decreases n - j,
        {
            let is_row_start = match &tokens[j] {
                Token::Start(name) => str_eq(name.as_str(), "OPINION"),
                _ => false,
            };
            if is_row_start {
                match m.readItem(tokens, j + 1, &mut diags) {
                    Err(e) => {
                        return Err(e);
                    },
                    Ok(k) => {
                        j = k;
                    },
                }
            } else {
                j += 1;
            }
        }
        Ok((m, diags))
    }

    /// Reads a whole XML document from raw bytes: tokenizes it with the
    /// outside parser, then runs the verified reader pass. What the model
    /// holds for any given token stream is pinned down by `from_tokens`;
    /// the bytes-to-token step belongs to the tokenizer, so only the model
    /// invariant is promised here. A `Malformed` error comes from the
    /// tokenizer, a `Truncated` one from the token stream ending mid-row.
    #[allow(non_snake_case)]
    pub fn loadMercOpinions(input: &[u8]) -> (r: Result<
        (MercOpinions, Vec<Diagnostic>),
        StreamError,
    >)
        ensures
            r matches Ok(p) ==> p.0@.wf(),
    {
        match crate::xml::tokenize(input) {
            Err(e) => Err(e),
            Ok(toks) => MercOpinions::from_tokens(&toks),
        }
    }
}

} // verus!
