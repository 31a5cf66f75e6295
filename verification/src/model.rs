//! The in-memory record model: three parallel, append-only collections
//! indexed by insertion order. A row is an identifier, a label, and a sparse
//! vector of relation values.

use vstd::prelude::*;

verus! {

/// One completed row, as mathematics: the identifier, the label text, and
/// the relation values in slot order.
#[verifier::ext_equal]
pub struct RowView {
    pub id: u8,
    pub label: Seq<char>,
    pub rels: Seq<i32>,
}

impl RowView {
    /// The state of a row before any of its fields has been seen: identifier
    /// zero, empty label, no relation slots.
    pub open spec fn empty() -> RowView {
        RowView { id: 0, label: Seq::empty(), rels: Seq::empty() }
    }
}

/// The mathematical content of a `MercOpinions` model.
#[verifier::ext_equal]
pub struct ModelView {
    pub index: Seq<u8>,
    pub nicknames: Seq<Seq<char>>,
    pub opinions: Seq<Seq<i32>>,
}

impl ModelView {
    /// The three collections always stay in lockstep: a row is appended to
    /// all of them at once, and nothing is ever removed.
    pub open spec fn wf(self) -> bool {
        &&& self.index.len() == self.nicknames.len()
        &&& self.index.len() == self.opinions.len()
    }

    pub open spec fn empty() -> ModelView {
        ModelView { index: Seq::empty(), nicknames: Seq::empty(), opinions: Seq::empty() }
    }

    /// The number of completed rows.
    pub open spec fn size(self) -> nat {
        self.index.len()
    }

    pub open spec fn push_row(self, r: RowView) -> ModelView {
        ModelView {
            index: self.index.push(r.id),
            nicknames: self.nicknames.push(r.label),
            opinions: self.opinions.push(r.rels),
        }
    }

    /// The row at insertion position `p`.
    pub open spec fn row(self, p: int) -> RowView {
        RowView { id: self.index[p], label: self.nicknames[p], rels: self.opinions[p] }
    }
}

/// The record model: rows of who thinks what about whom. `index[p]` is the
/// identifier of the row appended `p`-th, `nicknames[p]` its label, and
/// `opinions[p]` its relation values by slot. Rows are addressed by
/// insertion position throughout; the identifier is carried as data and
/// never used as a position.
#[derive(Debug)]
pub struct MercOpinions {
    pub index: Vec<u8>,
    pub nicknames: Vec<String>,
    pub opinions: Vec<Vec<i32>>,
}

impl View for MercOpinions {
    type V = ModelView;

    open spec fn view(&self) -> ModelView {
        ModelView {
            index: self.index@,
            nicknames: self.nicknames.deep_view(),
            opinions: self.opinions.deep_view(),
        }
    }
}

impl MercOpinions {
    /// An empty model, ready to be populated by one reader pass.
    pub fn new() -> (r: MercOpinions)
        ensures
            r@ == ModelView::empty(),
    {
        let index: Vec<u8> = Vec::new();
        let nicknames: Vec<String> = Vec::new();
        let opinions: Vec<Vec<i32>> = Vec::new();
        let r = MercOpinions { index, nicknames, opinions };
        proof {
            assert(r@ =~~= ModelView::empty());
        }
        r
    }

    /// Appends one completed row to all three collections at once. This is
    /// the only way the model grows.
    pub fn push_row(&mut self, id: u8, label: String, rels: Vec<i32>)
        ensures
            final(self)@ == old(self)@.push_row((RowView { id: id, label: label@, rels: rels@ })),
    {
        let ghost lv = label@;
        let ghost rv = rels@;
        self.index.push(id);
        self.nicknames.push(label);
        self.opinions.push(rels);
        proof {
            assert(self.nicknames.deep_view() =~= old(self).nicknames.deep_view().push(lv));
            assert(self.opinions.deep_view() =~~= old(self).opinions.deep_view().push(rv));
            assert(self@ =~~= old(self)@.push_row((RowView { id: id, label: lv, rels: rv })));
        }
    }
}

} // verus!
