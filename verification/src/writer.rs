//! The canonical writer: walks the record model in insertion order and
//! produces the size-minimized dialect. The identifier and label fields are
//! emitted for every row, unconditionally — zero is a meaningful identifier —
//! while a relation entry appears only when its modifier is non-zero
//! (sparse-by-omission). Labels have `&` escaped to `&amp;`.
//!
//! Rows are addressed by insertion position throughout; the identifier value
//! is emitted as data and never used to index the collections, so nothing
//! requires identifiers to be contiguous or ordered.

use vstd::prelude::*;
use crate::model::{MercOpinions, ModelView};
use crate::text::{dec_digits, dec_int, escape_amp, escape_amp_str, i64_string, u64_string};
use vstd::string::StrSliceExecFns;
use vstd::string::StringExecFns;

verus! {

// ---------------------------------------------------------------------------
// The canonical form, structured
// ---------------------------------------------------------------------------

/// One row of the canonical output: the identifier, the escaped label text,
/// and the slot-value pairs of exactly the non-zero relation entries.
#[verifier::ext_equal]
pub struct RowOut {
    pub id: u8,
    pub label: Seq<char>,
    pub pairs: Seq<(int, i32)>,
}

/// The slot-value pairs of the non-zero relation entries, in slot order.
pub open spec fn nonzero_pairs(rels: Seq<i32>) -> Seq<(int, i32)>
    decreases rels.len(),
{
    if rels.len() == 0 {
        Seq::empty()
    } else {
        let pre = nonzero_pairs(rels.drop_last());
        if rels.last() != 0 {
            pre.push(((rels.len() - 1) as int, rels.last()))
        } else {
            pre
        }
    }
}

/// The canonical content of the row at insertion position `p`.
pub open spec fn out_row(m: ModelView, p: int) -> RowOut {
    RowOut {
        id: m.index[p],
        label: escape_amp(m.nicknames[p]),
        pairs: nonzero_pairs(m.opinions[p]),
    }
}

/// The canonical content of the whole model, row by row in insertion order.
pub open spec fn out_rows(m: ModelView) -> Seq<RowOut> {
    Seq::new(m.index.len(), |p: int| out_row(m, p))
}

// ---------------------------------------------------------------------------
// The canonical form, as text
// ---------------------------------------------------------------------------

/// One tag-per-field element on its own indented line.
pub open spec fn tag_wrap(tag: Seq<char>, body: Seq<char>) -> Seq<char> {
    "\t\t<"@ + tag + ">"@ + body + "</"@ + tag + ">\n"@
}

/// An integer field element under the sparse-by-omission rule: a zero value
/// is absent, unless emission is forced.
pub open spec fn int_tag_text(tag: Seq<char>, value: int, forcewrite: bool) -> Seq<char> {
    if value == 0 && !forcewrite {
        Seq::empty()
    } else {
        tag_wrap(tag, dec_int(value))
    }
}

/// A string field element under the same rule: an empty value is absent,
/// unless emission is forced. `&` is escaped to `&amp;`.
pub open spec fn str_tag_text(tag: Seq<char>, value: Seq<char>, forcewrite: bool) -> Seq<char> {
    if value.len() == 0 && !forcewrite {
        Seq::empty()
    } else {
        tag_wrap(tag, escape_amp(value))
    }
}

/// The identifier element, present for every row whatever the value.
pub open spec fn id_elem(id: u8) -> Seq<char> {
    tag_wrap("uiIndex"@, dec_digits(id as nat))
}

/// The label element, present for every row, `label` already escaped.
pub open spec fn label_elem(label: Seq<char>) -> Seq<char> {
    tag_wrap("zNickname"@, label)
}

/// One relation element, carrying the slot index and the modifier value.
pub open spec fn rel_elem(slot: int, v: i32) -> Seq<char> {
    "\t\t<AnOpinion id = \""@ + dec_int(slot) + "\" modifier = \""@ + dec_int(v as int)
        + "\"/>\n"@
}

/// The relation elements of a row, one per non-zero pair, in slot order.
pub open spec fn rels_text(pairs: Seq<(int, i32)>) -> Seq<char>
    decreases pairs.len(),
{
    if pairs.len() == 0 {
        Seq::empty()
    } else {
        rels_text(pairs.drop_last()) + rel_elem(pairs.last().0, pairs.last().1)
    }
}

/// The text of one canonical row.
pub open spec fn row_text(r: RowOut) -> Seq<char> {
    "\t<OPINION>\n"@ + id_elem(r.id) + label_elem(r.label) + rels_text(r.pairs)
        + "\t</OPINION>\n"@
}

/// The text of a sequence of canonical rows.
pub open spec fn rows_text(rows: Seq<RowOut>) -> Seq<char>
    decreases rows.len(),
{
    if rows.len() == 0 {
        Seq::empty()
    } else {
        rows_text(rows.drop_last()) + row_text(rows.last())
    }
}

/// The whole canonical document: the wrapping root element around the rows.
pub open spec fn output_text(m: ModelView) -> Seq<char> {
    "<MERCOPINIONS>\n"@ + rows_text(out_rows(m)) + "</MERCOPINIONS>\n"@
}

// ---------------------------------------------------------------------------
// The executable writer
// ---------------------------------------------------------------------------

/// Appends one integer field element to the output, exactly as
/// `int_tag_text` says: nothing when the value is zero and `forcewrite` is
/// off, the full element otherwise.
pub fn write_tag_i(out: &mut String, value: i64, tag: &str, forcewrite: bool)
    ensures
        final(out)@ == old(out)@ + int_tag_text(tag@, value as int, forcewrite),
{
    if value == 0 && !forcewrite {
        proof {
            assert(out@ =~= old(out)@ + int_tag_text(tag@, value as int, forcewrite));
        }
        return;
    }
    out.append("\t\t<");
    out.append(tag);
    out.append(">");
    let vs = i64_string(value);
    out.append(vs.as_str());
    out.append("</");
    out.append(tag);
    out.append(">\n");
    proof {
        assert(out@ =~= old(out)@ + int_tag_text(tag@, value as int, forcewrite));
    }
}

/// Appends one string field element to the output, exactly as
/// `str_tag_text` says: nothing when the value is empty and `forcewrite` is
/// off, the full element — ampersands escaped — otherwise.
pub fn write_tag_s(out: &mut String, value: &str, tag: &str, forcewrite: bool)
    ensures
        final(out)@ == old(out)@ + str_tag_text(tag@, value@, forcewrite),
{
    if value.unicode_len() == 0 && !forcewrite {
        proof {
            assert(out@ =~= old(out)@ + str_tag_text(tag@, value@, forcewrite));
        }
        return;
    }
    out.append("\t\t<");
    out.append(tag);
    out.append(">");
    let ev = escape_amp_str(value);
    out.append(ev.as_str());
    out.append("</");
    out.append(tag);
    out.append(">\n");
    proof {
        assert(out@ =~= old(out)@ + str_tag_text(tag@, value@, forcewrite));
    }
}

impl MercOpinions {
    /// Produces the canonical document for this model: a pure function of
    /// the model's content and insertion order. Writing the bytes anywhere
    /// is the caller's business.
    #[allow(non_snake_case)]
    pub fn saveMercOpinions(&self) -> (out: String)
        requires
            self@.wf(),
        ensures
            out@ == output_text(self@),
    {
        let ghost rows = out_rows(self@);
        let mut out = String::from_str("<MERCOPINIONS>\n");
        let n = self.index.len();
        let mut p: usize = 0;
        proof {
            assert(rows.take(0) =~= Seq::<RowOut>::empty());
            assert(out@ =~= "<MERCOPINIONS>\n"@ + rows_text(rows.take(0)));
        }
        while p < n
            invariant
                p <= n,
                n == self@.index.len(),
                self@.wf(),
                rows == out_rows(self@),
                out@ == "<MERCOPINIONS>\n"@ + rows_text(rows.take(p as int)),
            decreases n - p,
        {
            out.append("\t<OPINION>\n");
            write_tag_i(&mut out, self.index[p] as i64, "uiIndex", true);
            write_tag_s(&mut out, self.nicknames[p].as_str(), "zNickname", true);
            let ghost base = "<MERCOPINIONS>\n"@ + rows_text(rows.take(p as int)) + "\t<OPINION>\n"@
                + id_elem(self@.index[p as int]) + label_elem(
                escape_amp(self@.nicknames[p as int]),
            );
            proof {
                assert(self@.nicknames[p as int] == self.nicknames@[p as int]@);
                assert(dec_int(self@.index[p as int] as int) == dec_digits(
                    self@.index[p as int] as nat,
                ));
                assert(out@ =~= base);
            }
            let rvec = &self.opinions[p];
            let ghost rv = self@.opinions[p as int];
            proof {
                assert(rvec@ =~= rv);
            }
            let m = rvec.len();
            let mut q: usize = 0;
            proof {
                assert(rv.take(0) =~= Seq::<i32>::empty());
                assert(out@ =~= base + rels_text(nonzero_pairs(rv.take(0))));
            }
            while q < m
                invariant
                    q <= m,
                    m == rv.len(),
                    rvec@ == rv,
                    out@ == base + rels_text(nonzero_pairs(rv.take(q as int))),
                decreases m - q,
            {
                let v = rvec[q];
                if v != 0 {
                    out.append("\t\t<AnOpinion id = \"");
                    let qs = u64_string(q as u64);
                    out.append(qs.as_str());
                    out.append("\" modifier = \"");
                    let vs = i64_string(v as i64);
                    out.append(vs.as_str());
                    out.append("\"/>\n");
                }
                proof {
                    let pre = nonzero_pairs(rv.take(q as int));
                    assert(rv.take(q + 1).drop_last() =~= rv.take(q as int));
                    assert(rv.take(q + 1).last() == rv[q as int]);
                    if v != 0 {
                        assert(nonzero_pairs(rv.take(q + 1)) == pre.push((q as int, v)));
                        assert(pre.push((q as int, v)).drop_last() =~= pre);
                        assert(rels_text(pre.push((q as int, v))) == rels_text(pre) + rel_elem(
                            q as int,
                            v,
                        ));
                        assert(out@ =~= base + rels_text(nonzero_pairs(rv.take(q + 1))));
                    } else {
                        assert(nonzero_pairs(rv.take(q + 1)) == pre);
                    }
                }
                q += 1;
            }
            out.append("\t</OPINION>\n");
            proof {
                assert(rv.take(m as int) =~= rv);
                assert(rows[p as int] == out_row(self@, p as int));
                assert(rows.take(p + 1).drop_last() =~= rows.take(p as int));
                assert(rows.take(p + 1).last() == rows[p as int]);
                assert(out@ =~= "<MERCOPINIONS>\n"@ + rows_text(rows.take(p + 1)));
            }
            p += 1;
        }
        out.append("</MERCOPINIONS>\n");
        proof {
            assert(rows.take(n as int) =~= rows);
            assert(out@ =~= output_text(self@));
        }
        out
    }
}

} // verus!
