//! The laws of the canonical form: what the writer's output determines about
//! the model it came from. Each public proof function here states one such
//! law over the spec functions that the reader's and writer's contracts use.

use vstd::prelude::*;
use crate::model::ModelView;
use crate::text::{dec_digits, dec_int, escape_amp, unescape_amp};
use crate::text::{lemma_parse_signed_roundtrip, lemma_parse_unsigned_roundtrip,
    lemma_unescape_escape};
use crate::text::{parse_signed, parse_unsigned};
use crate::writer::{id_elem, label_elem, nonzero_pairs, out_row, out_rows, output_text, rel_elem,
    rels_text, row_text, rows_text, RowOut};

verus! {

// ---------------------------------------------------------------------------
// What the non-zero pairs of a row hold
// ---------------------------------------------------------------------------

/// An element is in a pushed sequence exactly when it is the pushed element
/// or was there before.
pub proof fn lemma_push_contains<T>(s: Seq<T>, x: T, y: T)
    ensures
        s.push(x).contains(y) <==> (s.contains(y) || x == y),
{
    if s.push(x).contains(y) {
        let i = choose|i: int| 0 <= i < s.push(x).len() && s.push(x)[i] == y;
        if i < s.len() {
            assert(s[i] == y);
        }
    }
    if s.contains(y) {
        let i = choose|i: int| 0 <= i < s.len() && s[i] == y;
        assert(s.push(x)[i] == y);
    }
    if x == y {
        assert(s.push(x)[s.len() as int] == y);
    }
}

/// A slot-value pair appears among a row's non-zero pairs exactly when that
/// slot exists, holds that value, and the value is non-zero.
pub proof fn lemma_nonzero_pairs_membership(rels: Seq<i32>)
    ensures
        forall|slot: int, w: i32|
            #[trigger] nonzero_pairs(rels).contains((slot, w)) <==> (0 <= slot < rels.len()
                && rels[slot] == w && w != 0),
    decreases rels.len(),
{
    if rels.len() > 0 {
        lemma_nonzero_pairs_membership(rels.drop_last());
        let pre = nonzero_pairs(rels.drop_last());
        let l = rels.len() - 1;
        assert forall|slot: int, w: i32|
            #[trigger] nonzero_pairs(rels).contains((slot, w)) <==> (0 <= slot < rels.len()
                && rels[slot] == w && w != 0) by {
            if rels.last() != 0 {
                lemma_push_contains(pre, (l as int, rels.last()), (slot, w));
            }
        }
    }
}

/// Every non-zero pair points back into the row, carries a non-zero value,
/// and the slots come out in strictly ascending order.
pub proof fn lemma_nonzero_pairs_canonical(rels: Seq<i32>)
    ensures
        forall|j: int|
            0 <= j < nonzero_pairs(rels).len() ==> {
                &&& 0 <= (#[trigger] nonzero_pairs(rels)[j]).0 < rels.len()
                &&& rels[nonzero_pairs(rels)[j].0] == nonzero_pairs(rels)[j].1
                &&& nonzero_pairs(rels)[j].1 != 0
            },
        forall|j1: int, j2: int|
            0 <= j1 < j2 < nonzero_pairs(rels).len() ==> (#[trigger] nonzero_pairs(rels)[j1]).0
                < (#[trigger] nonzero_pairs(rels)[j2]).0,
    decreases rels.len(),
{
    if rels.len() > 0 {
        lemma_nonzero_pairs_canonical(rels.drop_last());
        let pre = nonzero_pairs(rels.drop_last());
        let np = nonzero_pairs(rels);
        let l = rels.len() - 1;
        assert(forall|k: int| 0 <= k < l ==> #[trigger] rels.drop_last()[k] == rels[k]);
        assert(rels.drop_last().len() == l);
        if rels.last() != 0 {
            assert(np == pre.push((l as int, rels.last())));
            assert forall|j: int| 0 <= j < np.len() implies {
                &&& 0 <= (#[trigger] np[j]).0 < rels.len()
                &&& rels[np[j].0] == np[j].1
                &&& np[j].1 != 0
            } by {
                if j < pre.len() {
                    assert(np[j] == pre[j]);
                } else {
                    assert(np[j] == (l as int, rels.last()));
                }
            }
            assert forall|j1: int, j2: int| 0 <= j1 < j2 < np.len() implies (
            #[trigger] np[j1]).0 < (#[trigger] np[j2]).0 by {
                assert(np[j1] == pre[j1]);
                if j2 < pre.len() {
                    assert(np[j2] == pre[j2]);
                } else {
                    assert(np[j2] == (l as int, rels.last()));
                    assert(pre[j1].0 < rels.drop_last().len());
                }
            }
        } else {
            assert(np == pre);
            assert forall|j: int| 0 <= j < np.len() implies {
                &&& 0 <= (#[trigger] np[j]).0 < rels.len()
                &&& rels[np[j].0] == np[j].1
                &&& np[j].1 != 0
            } by {
                assert(np[j] == pre[j]);
                assert(rels.drop_last()[pre[j].0] == rels[pre[j].0]);
            }
        }
    }
}

/// A row whose entries are all non-zero loses nothing: its pairs are the
/// identity enumeration of its entries.
pub proof fn lemma_nonzero_pairs_dense(rels: Seq<i32>)
    requires
        forall|j: int| 0 <= j < rels.len() ==> rels[j] != 0,
    ensures
        nonzero_pairs(rels).len() == rels.len(),
        forall|j: int| 0 <= j < rels.len() ==> #[trigger] nonzero_pairs(rels)[j] == (j, rels[j]),
    decreases rels.len(),
{
    if rels.len() > 0 {
        lemma_nonzero_pairs_dense(rels.drop_last());
    }
}

// ---------------------------------------------------------------------------
// Rebuilding a model from canonical output
// ---------------------------------------------------------------------------

/// Extends a row with zero entries until it has length `n`.
pub open spec fn pad_zeros(rels: Seq<i32>, n: int) -> Seq<i32>
    decreases n - rels.len(),
{
    if rels.len() >= n {
        rels
    } else {
        pad_zeros(rels.push(0), n)
    }
}

/// The shortest row whose non-zero entries are exactly `pairs`: each slot
/// gets its pair's value, every other slot up to the last pair is zero.
pub open spec fn dense_of(pairs: Seq<(int, i32)>) -> Seq<i32>
    decreases pairs.len(),
{
    if pairs.len() == 0 {
        Seq::empty()
    } else {
        pad_zeros(dense_of(pairs.drop_last()), pairs.last().0).push(pairs.last().1)
    }
}

/// The model a reader of the canonical output would reconstruct: the same
/// identifiers, the labels unescaped, and each row densified from its pairs.
pub open spec fn derive_model(rows: Seq<RowOut>) -> ModelView {
    ModelView {
        index: Seq::new(rows.len(), |i: int| rows[i].id),
        nicknames: Seq::new(rows.len(), |i: int| unescape_amp(rows[i].label)),
        opinions: Seq::new(rows.len(), |i: int| dense_of(rows[i].pairs)),
    }
}

/// Appended zeros never add a pair.
proof fn lemma_nonzero_pairs_pad(rels: Seq<i32>, n: int)
    ensures
        nonzero_pairs(pad_zeros(rels, n)) == nonzero_pairs(rels),
        pad_zeros(rels, n).len() >= n,
        pad_zeros(rels, n).len() >= rels.len(),
        rels.len() <= n ==> pad_zeros(rels, n).len() == n,
    decreases n - rels.len(),
{
    if rels.len() < n {
        assert(rels.push(0).drop_last() =~= rels);
        lemma_nonzero_pairs_pad(rels.push(0), n);
    }
}

/// The length of a densified row is one past its last slot.
proof fn lemma_dense_of_len(pairs: Seq<(int, i32)>)
    requires
        forall|j1: int, j2: int|
            0 <= j1 < j2 < pairs.len() ==> (#[trigger] pairs[j1]).0 < (#[trigger] pairs[j2]).0,
        forall|j: int| 0 <= j < pairs.len() ==> 0 <= (#[trigger] pairs[j]).0,
    ensures
        pairs.len() == 0 ==> dense_of(pairs).len() == 0,
        pairs.len() > 0 ==> dense_of(pairs).len() == pairs.last().0 + 1,
    decreases pairs.len(),
{
    if pairs.len() > 0 {
        let ps = pairs.drop_last();
        assert(forall|j: int| 0 <= j < ps.len() ==> #[trigger] ps[j] == pairs[j]);
        lemma_dense_of_len(ps);
        if pairs.len() > 1 {
            assert(ps.last() == pairs[pairs.len() - 2]);
            assert(pairs[pairs.len() - 2].0 < pairs[pairs.len() - 1].0);
            assert(pairs.last() == pairs[pairs.len() - 1]);
        }
        assert(pairs.last() == pairs[pairs.len() - 1]);
        assert(0 <= pairs.last().0);
        assert(dense_of(ps).len() <= pairs.last().0);
        lemma_nonzero_pairs_pad(dense_of(ps), pairs.last().0);
        assert(pad_zeros(dense_of(ps), pairs.last().0).len() == pairs.last().0);
    }
}

/// Densifying a canonical pair sequence and taking the non-zero pairs again
/// gives back exactly the same pairs.
pub proof fn lemma_sparse_dense(pairs: Seq<(int, i32)>)
    requires
        forall|j: int| 0 <= j < pairs.len() ==> 0 <= (#[trigger] pairs[j]).0,
        forall|j: int| 0 <= j < pairs.len() ==> (#[trigger] pairs[j]).1 != 0,
        forall|j1: int, j2: int|
            0 <= j1 < j2 < pairs.len() ==> (#[trigger] pairs[j1]).0 < (#[trigger] pairs[j2]).0,
    ensures
        nonzero_pairs(dense_of(pairs)) == pairs,
    decreases pairs.len(),
{
    if pairs.len() == 0 {
        assert(nonzero_pairs(dense_of(pairs)) =~= pairs);
    } else {
        let ps = pairs.drop_last();
        assert(forall|j: int| 0 <= j < ps.len() ==> #[trigger] ps[j] == pairs[j]);
        assert(pairs.last() == pairs[pairs.len() - 1]);
        let k = pairs.last().0;
        let v = pairs.last().1;
        lemma_sparse_dense(ps);
        lemma_dense_of_len(ps);
        if ps.len() > 0 {
            assert(ps.last() == pairs[pairs.len() - 2]);
            assert(pairs[pairs.len() - 2].0 < pairs[pairs.len() - 1].0);
        }
        assert(dense_of(ps).len() <= k);
        let padded = pad_zeros(dense_of(ps), k);
        lemma_nonzero_pairs_pad(dense_of(ps), k);
        assert(padded.len() == k);
        assert(dense_of(pairs) == padded.push(v));
        assert(padded.push(v).drop_last() =~= padded);
        assert(padded.push(v).last() == v);
        assert(nonzero_pairs(dense_of(pairs)) == nonzero_pairs(padded).push((k, v)));
        assert(nonzero_pairs(dense_of(pairs)) =~= pairs);
    }
}

// ---------------------------------------------------------------------------
// The laws
// ---------------------------------------------------------------------------

/// Round-trip of non-zero values: for a row whose relation entries are all
/// non-zero, the canonical output carries everything back — the identifier
/// numeral re-parses to the identifier, unescaping restores the label, and
/// the pairs enumerate exactly the entries at their slots, each value
/// numeral re-parsing to its value.
pub proof fn lemma_round_trip(id: u8, label: Seq<char>, rels: Seq<i32>)
    requires
        forall|j: int| 0 <= j < rels.len() ==> rels[j] != 0,
    ensures
        unescape_amp(escape_amp(label)) == label,
        parse_unsigned(dec_digits(id as nat), u8::MAX as nat) == Some(id as nat),
        nonzero_pairs(rels).len() == rels.len(),
        forall|j: int| 0 <= j < rels.len() ==> #[trigger] nonzero_pairs(rels)[j] == (j, rels[j]),
        forall|j: int|
            0 <= j < rels.len() ==> parse_signed(
                dec_int(#[trigger] rels[j] as int),
                i32::MIN as int,
                i32::MAX as int,
            ) == Some(rels[j] as int),
{
    lemma_unescape_escape(label);
    lemma_parse_unsigned_roundtrip(id as nat, u8::MAX as nat);
    lemma_nonzero_pairs_dense(rels);
    assert forall|j: int| 0 <= j < rels.len() implies parse_signed(
        dec_int(#[trigger] rels[j] as int),
        i32::MIN as int,
        i32::MAX as int,
    ) == Some(rels[j] as int) by {
        lemma_parse_signed_roundtrip(rels[j] as int, i32::MIN as int, i32::MAX as int);
    }
}

/// Zero-omission idempotence: a model rebuilt from the writer's own output
/// writes to the very same canonical text — the canonical form is a fixed
/// point of transcoding.
pub proof fn lemma_writer_idempotent(m: ModelView)
    requires
        m.wf(),
    ensures
        out_rows(derive_model(out_rows(m))) == out_rows(m),
        output_text(derive_model(out_rows(m))) == output_text(m),
{
    let rows = out_rows(m);
    let m2 = derive_model(rows);
    assert forall|p: int| 0 <= p < rows.len() implies #[trigger] out_row(m2, p) == rows[p] by {
        lemma_unescape_escape(m.nicknames[p]);
        lemma_nonzero_pairs_canonical(m.opinions[p]);
        lemma_sparse_dense(nonzero_pairs(m.opinions[p]));
        assert(out_row(m2, p) =~~= rows[p]);
    }
    assert(out_rows(m2) =~~= rows);
}

/// Sparse slot independence: zeroing one slot removes exactly that slot's
/// pair from the output and no other; putting a non-zero value back
/// reinstates exactly one pair, with that slot and that value.
pub proof fn lemma_slot_independence(rels: Seq<i32>, j: int, v: i32)
    requires
        0 <= j < rels.len(),
    ensures
        forall|slot: int, w: i32|
            #[trigger] nonzero_pairs(rels.update(j, 0)).contains((slot, w)) <==> (nonzero_pairs(
                rels,
            ).contains((slot, w)) && slot != j),
        v != 0 ==> forall|slot: int, w: i32|
            #[trigger] nonzero_pairs(rels.update(j, v)).contains((slot, w)) <==> ((nonzero_pairs(
                rels,
            ).contains((slot, w)) && slot != j) || (slot == j && w == v)),
{
    lemma_nonzero_pairs_membership(rels);
    lemma_nonzero_pairs_membership(rels.update(j, 0));
    lemma_nonzero_pairs_membership(rels.update(j, v));
}

/// Somewhere in a row sequence's text stands the identifier element of each
/// of its rows.
proof fn lemma_rows_text_contains_id(rows: Seq<RowOut>, p: int)
    requires
        0 <= p < rows.len(),
    ensures
        exists|a: Seq<char>, b: Seq<char>|
            rows_text(rows) == a + id_elem(rows[p].id) + b,
    decreases rows.len(),
{
    if p == rows.len() - 1 {
        let r = rows.last();
        let a0 = rows_text(rows.drop_last()) + "\t<OPINION>\n"@;
        let b0 = label_elem(r.label) + rels_text(r.pairs)
            + "\t</OPINION>\n"@;
        assert(rows_text(rows) =~= a0 + id_elem(rows[p].id) + b0);
    } else {
        lemma_rows_text_contains_id(rows.drop_last(), p);
        assert(rows.drop_last()[p] == rows[p]);
        let (a, b) = choose|a: Seq<char>, b: Seq<char>|
            rows_text(rows.drop_last()) == a + id_elem(rows[p].id) + b;
        let b1 = b + row_text(rows.last());
        assert(rows_text(rows) =~= a + id_elem(rows[p].id) + b1);
    }
}

/// Identifier forced emission: the identifier element of every row stands in
/// the canonical document, identifier zero included — the omit-zero rule
/// applies to relation modifiers only, never to the identifier field.
pub proof fn lemma_identifier_forced_emission(m: ModelView, p: int)
    requires
        m.wf(),
        0 <= p < m.index.len(),
    ensures
        exists|a: Seq<char>, b: Seq<char>|
            output_text(m) == a + id_elem(m.index[p]) + b,
{
    let rows = out_rows(m);
    lemma_rows_text_contains_id(rows, p);
    let (a, b) = choose|a: Seq<char>, b: Seq<char>|
        rows_text(rows) == a + id_elem(rows[p].id) + b;
    let a1 = "<MERCOPINIONS>\n"@ + a;
    let b1 = b + "</MERCOPINIONS>\n"@;
    assert(rows[p].id == m.index[p]);
    assert(output_text(m) =~= a1 + id_elem(m.index[p]) + b1);
}

/// Somewhere in a row sequence's text stands the label element of each of
/// its rows.
proof fn lemma_rows_text_contains_label(rows: Seq<RowOut>, p: int)
    requires
        0 <= p < rows.len(),
    ensures
        exists|a: Seq<char>, b: Seq<char>|
            rows_text(rows) == a + label_elem(rows[p].label) + b,
    decreases rows.len(),
{
    if p == rows.len() - 1 {
        let r = rows.last();
        let a0 = rows_text(rows.drop_last()) + "\t<OPINION>\n"@ + id_elem(r.id);
        let b0 = rels_text(r.pairs) + "\t</OPINION>\n"@;
        assert(rows_text(rows) =~= a0 + label_elem(rows[p].label) + b0);
    } else {
        lemma_rows_text_contains_label(rows.drop_last(), p);
        assert(rows.drop_last()[p] == rows[p]);
        let (a, b) = choose|a: Seq<char>, b: Seq<char>|
            rows_text(rows.drop_last()) == a + label_elem(rows[p].label) + b;
        let b1 = b + row_text(rows.last());
        assert(rows_text(rows) =~= a + label_elem(rows[p].label) + b1);
    }
}

/// Label forced emission: the label element of every row stands in the
/// canonical document, the empty label included — a row whose label text was
/// absent in the input still carries a present-but-empty label element.
pub proof fn lemma_label_forced_emission(m: ModelView, p: int)
    requires
        m.wf(),
        0 <= p < m.index.len(),
    ensures
        exists|a: Seq<char>, b: Seq<char>|
            output_text(m) == a + label_elem(escape_amp(m.nicknames[p])) + b,
        m.nicknames[p].len() == 0 ==> label_elem(escape_amp(m.nicknames[p])) == label_elem(
            Seq::empty(),
        ),
{
    let rows = out_rows(m);
    lemma_rows_text_contains_label(rows, p);
    let (a, b) = choose|a: Seq<char>, b: Seq<char>|
        rows_text(rows) == a + label_elem(rows[p].label) + b;
    let a1 = "<MERCOPINIONS>\n"@ + a;
    let b1 = b + "</MERCOPINIONS>\n"@;
    assert(rows[p].label == escape_amp(m.nicknames[p]));
    assert(output_text(m) =~= a1 + label_elem(escape_amp(m.nicknames[p])) + b1);
}

} // verus!
