//! Cursors over the entries of a store.
//!
//! A cursor walks the nodes of the store in the order of the directory and
//! stops at each entry: at each node whose name is a valid key and whose
//! content is a valid image file. It takes no lock.
use crate::db::{is_valid_key, spec_live_keys, DBView, SlotView, DB};
use crate::error::Error;
use crate::image::{spec_file_image, Image, Ownership};
use vstd::prelude::*;

verus! {

/// The place of the first entry at or behind place `pos`, or the number of
/// nodes where no entry is left.
pub open spec fn spec_next_live(slots: Seq<SlotView>, pos: int) -> int
    decreases slots.len() - pos,
{
    if pos < 0 || pos >= slots.len() {
        slots.len() as int
    } else if slots[pos].spec_live() {
        pos
    } else {
        spec_next_live(slots, pos + 1)
    }
}

/// The keys that a cursor at place `pos` yields until it is exhausted.
pub open spec fn spec_yields(slots: Seq<SlotView>, pos: int) -> Seq<Seq<char>>
    decreases slots.len() - pos,
{
    let j = spec_next_live(slots, pos);
    if pos < 0 || j >= slots.len() || j < pos {
        Seq::empty()
    } else {
        seq![slots[j].name] + spec_yields(slots, j + 1)
    }
}

/// The next entry is an entry, stands at or behind the cursor, and no entry
/// stands between the two.
pub proof fn lemma_next_live(slots: Seq<SlotView>, pos: int)
    requires
        0 <= pos <= slots.len(),
    ensures
        pos <= spec_next_live(slots, pos) <= slots.len(),
        spec_next_live(slots, pos) < slots.len() ==> slots[spec_next_live(
            slots,
            pos,
        )].spec_live(),
        forall|k: int| pos <= k < spec_next_live(slots, pos) ==> !(#[trigger] slots[k]).spec_live(),
    decreases slots.len() - pos,
{
    if pos < slots.len() && !slots[pos].spec_live() {
        lemma_next_live(slots, pos + 1);
    }
}

/// The keys of the entries of a run of nodes are the key of its first node,
/// where that is an entry, and then the keys of the entries of the rest.
pub proof fn lemma_live_keys_front(slots: Seq<SlotView>)
    requires
        slots.len() > 0,
    ensures
        spec_live_keys(slots) == (if slots.first().spec_live() {
            seq![slots.first().name]
        } else {
            Seq::empty()
        }) + spec_live_keys(slots.drop_first()),
    decreases slots.len(),
{
    let head: Seq<Seq<char>> = if slots.first().spec_live() {
        seq![slots.first().name]
    } else {
        Seq::empty()
    };
    if slots.len() == 1 {
        assert(slots.drop_last() =~= Seq::<SlotView>::empty());
        assert(slots.drop_first() =~= Seq::<SlotView>::empty());
        assert(spec_live_keys(slots) =~= head + spec_live_keys(slots.drop_first()));
    } else {
        let front = slots.drop_last();
        lemma_live_keys_front(front);
        assert(front.drop_first() =~= slots.drop_first().drop_last());
        assert(front.first() == slots.first());
        assert(slots.drop_first().last() == slots.last());
        assert(spec_live_keys(slots) =~= head + spec_live_keys(slots.drop_first()));
    }
}

/// A cursor yields the keys of the entries behind it, each once and in the
/// order of the directory.
pub proof fn lemma_yields_from(slots: Seq<SlotView>, pos: int)
    requires
        0 <= pos <= slots.len(),
    ensures
        spec_yields(slots, pos) == spec_live_keys(slots.subrange(pos, slots.len() as int)),
    decreases slots.len() - pos,
{
    let rest = slots.subrange(pos, slots.len() as int);
    if pos < slots.len() {
        lemma_next_live(slots, pos);
        lemma_next_live(slots, pos + 1);
        lemma_live_keys_front(rest);
        assert(rest.drop_first() =~= slots.subrange(pos + 1, slots.len() as int));
        assert(rest.first() == slots[pos]);
        lemma_yields_from(slots, pos + 1);
        if slots[pos].spec_live() {
        } else {
            let j = spec_next_live(slots, pos);
            assert(j == spec_next_live(slots, pos + 1));
            assert(spec_yields(slots, pos) =~= spec_yields(slots, pos + 1));
            assert(Seq::<Seq<char>>::empty() + spec_live_keys(rest.drop_first())
                =~= spec_live_keys(rest.drop_first()));
        }
    }
}

/// A fresh cursor yields exactly the keys of the entries of the store.
pub proof fn lemma_iteration_yields_keys(db: DBView)
    ensures
        spec_yields(db.slots, 0) == db.spec_keys(),
{
    lemma_yields_from(db.slots, 0);
    assert(db.slots.subrange(0, db.slots.len() as int) =~= db.slots);
}

/// What a cursor is: the store that it walks and the place that it has
/// come to.
pub struct IterView {
    pub db: DBView,
    pub pos: nat,
}

impl IterView {
    /// The cursor has not left the store.
    pub open spec fn wf(self) -> bool {
        self.db.wf() && self.pos <= self.db.slots.len()
    }
}

/// Iterator over Imaged images
pub struct Iter<'a> {
    db: &'a DB,
    pos: usize,
}

/// Iterator over Imaged keys
pub struct KeyIter<'a> {
    db: &'a DB,
    pos: usize,
}

impl<'a> View for Iter<'a> {
    type V = IterView;

    closed spec fn view(&self) -> IterView {
        IterView { db: self.db@, pos: self.pos as nat }
    }
}

impl<'a> View for KeyIter<'a> {
    type V = IterView;

    closed spec fn view(&self) -> IterView {
        IterView { db: self.db@, pos: self.pos as nat }
    }
}

/// Moves a place to the next entry of the store, if one is left.
fn advance(db: &DB, pos: usize) -> (j: usize)
    requires
        db.wf(),
        pos <= db@.slots.len(),
    ensures
        j == spec_next_live(db@.slots, pos as int),
        pos <= j <= db@.slots.len(),
{
    let n = db.nodes();
    let mut j: usize = pos;
    proof {
        lemma_next_live(db@.slots, pos as int);
    }
    while j < n
        invariant
            db.wf(),
            pos <= j <= n,
            n == db@.slots.len(),
            spec_next_live(db@.slots, j as int) == spec_next_live(db@.slots, pos as int),
        decreases n - j,
    {
        let live = is_valid_key(db.node_name(j)) && match db.node_content(j) {
            Some(bytes) => crate::image::is_valid_file(bytes.as_slice()),
            None => false,
        };
        if live {
            return j;
        }
        j = j + 1;
    }
    j
}

impl DB {
    /// Returns a new image iterator
    pub fn iter(&self) -> (r: Result<Iter<'_>, Error>)
        requires
            self.wf(),
        ensures
            r is Ok,
            r->Ok_0.wf(),
            r->Ok_0@ == (IterView { db: self@, pos: 0 }),
    {
        proof {
            self.lemma_wf();
        }
        Ok(Iter { db: self, pos: 0 })
    }

    /// Returns a new key iterator
    pub fn iter_keys(&self) -> (r: Result<KeyIter<'_>, Error>)
        requires
            self.wf(),
        ensures
            r is Ok,
            r->Ok_0.wf(),
            r->Ok_0@ == (IterView { db: self@, pos: 0 }),
    {
        proof {
            self.lemma_wf();
        }
        Ok(KeyIter { db: self, pos: 0 })
    }
}

impl<'a> Iter<'a> {
    /// The invariant of every cursor: see [`IterView::wf`].
    pub closed spec fn wf(&self) -> bool {
        self.db.wf() && self@.wf()
    }

    /// Rewinds the cursor to the first node.
    pub fn reset(&mut self)
        requires
            old(self).wf(),
        ensures
            final(self).wf(),
            final(self)@ == (IterView { pos: 0, ..old(self)@ }),
    {
        self.pos = 0;
    }

    /// The next entry: its key and its image, as the store holds it now.
    /// Returns `None` when no entry is left.
    pub fn next(&mut self) -> (r: Option<(&'a str, Image)>)
        requires
            old(self).wf(),
        ensures
            final(self).wf(),
            final(self)@.db == old(self)@.db,
            ({
                let slots = old(self)@.db.slots;
                let j = spec_next_live(slots, old(self)@.pos as int);
                match r {
                    Some((key, image)) => {
                        &&& j < slots.len()
                        &&& final(self)@.pos == j + 1
                        &&& key@ == slots[j].name
                        &&& image.wf()
                        &&& image@ == spec_file_image(slots[j].content->0, Ownership::Borrowed)
                    },
                    None => j == slots.len() && final(self)@.pos == slots.len(),
                }
            }),
    {
        let db: &'a DB = self.db;
        let j = advance(db, self.pos);
        proof {
            lemma_next_live(db@.slots, self.pos as int);
        }
        if j >= db.nodes() {
            self.pos = j;
            return None;
        }
        self.pos = j + 1;
        let key = db.node_name(j);
        match db.node_content(j) {
            None => None,
            Some(bytes) => match Image::from_file(bytes.as_slice(), Ownership::Borrowed) {
                None => None,
                Some(image) => Some((key, image)),
            },
        }
    }
}

impl<'a> KeyIter<'a> {
    /// The invariant of every cursor: see [`IterView::wf`].
    pub closed spec fn wf(&self) -> bool {
        self.db.wf() && self@.wf()
    }

    /// Rewinds the cursor to the first node.
    pub fn reset(&mut self)
        requires
            old(self).wf(),
        ensures
            final(self).wf(),
            final(self)@ == (IterView { pos: 0, ..old(self)@ }),
    {
        self.pos = 0;
    }

    /// The key of the next entry. Returns `None` when no entry is left.
    pub fn next(&mut self) -> (r: Option<&'a str>)
        requires
            old(self).wf(),
        ensures
            final(self).wf(),
            final(self)@.db == old(self)@.db,
            ({
                let slots = old(self)@.db.slots;
                let j = spec_next_live(slots, old(self)@.pos as int);
                match r {
                    Some(key) => {
                        &&& j < slots.len()
                        &&& final(self)@.pos == j + 1
                        &&& key@ == slots[j].name
                    },
                    None => j == slots.len() && final(self)@.pos == slots.len(),
                }
            }),
    {
        let db: &'a DB = self.db;
        let j = advance(db, self.pos);
        if j >= db.nodes() {
            self.pos = j;
            return None;
        }
        self.pos = j + 1;
        Some(db.node_name(j))
    }
}

} // verus!
