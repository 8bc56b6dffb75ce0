//! The document store: item list, id allocation, and the edit journal with
//! exact inverse-application semantics.

use vstd::prelude::*;

use crate::model::{clone_items, item_eq, Item, ItemModel, Point, Shape, ShapeKind, ShapeStyle,
    Stroke, TextAlignH, TextAlignV};
use crate::model::ColorRgba8;
use crate::hittest::{item_intersects_point, spec_item_hit};
use crate::json::{document_from_json, items_to_json, spec_from_json, spec_to_json};
use crate::scalar::{f32_mul, mul_bits};

verus! {

/// The version written by `document` and `to_json`.
pub const CURRENT_VERSION: u32 = 2;

/// A snapshot of the store: a version number and the item list in paint
/// order.
#[derive(Debug)]
pub struct Document {
    pub version: u32,
    pub items: Vec<Item>,
}

impl Document {
    /// An empty document at the current version.
    pub fn empty() -> (d: Document)
        ensures
            d.version == CURRENT_VERSION,
            d.items.deep_view() == Seq::<ItemModel>::empty(),
    {
        let d = Document { version: CURRENT_VERSION, items: Vec::new() };
        proof {
            assert(d.items.deep_view() =~= Seq::<ItemModel>::empty());
        }
        d
    }
}

impl Clone for Document {
    /// Cloning keeps the version and the items' model exactly.
    fn clone(&self) -> (r: Self)
        ensures
            r.version == self.version,
            r.items.deep_view() == self.items.deep_view(),
    {
        Document { version: self.version, items: clone_items(&self.items) }
    }
}

/// Failures of the store; all other operations are total.
#[derive(Clone, Copy, PartialEq, Eq, Structural, Debug)]
pub enum StoreError {
    /// `undo` with an empty undo journal.
    CannotUndo,
    /// `redo` with an empty redo journal.
    CannotRedo,
    /// A JSON document that could not be parsed.
    Serialization,
}

/// One journal entry.
#[derive(Debug)]
pub enum Edit {
    AddItem(Item),
    RemoveItem { index: usize, item: Item },
    ReplaceItem { index: usize, before: Item, after: Item },
    ReplaceAll { before: Vec<Item>, after: Vec<Item> },
}

/// The model of a journal entry.
#[verifier::ext_equal]
pub enum EditModel {
    AddItem(ItemModel),
    RemoveItem { index: int, item: ItemModel },
    ReplaceItem { index: int, before: ItemModel, after: ItemModel },
    ReplaceAll { before: Seq<ItemModel>, after: Seq<ItemModel> },
}

impl DeepView for Edit {
    type V = EditModel;

    open spec fn deep_view(&self) -> EditModel {
        match self {
            Edit::AddItem(item) => EditModel::AddItem(item.deep_view()),
            Edit::RemoveItem { index, item } => EditModel::RemoveItem {
                index: *index as int,
                item: item.deep_view(),
            },
            Edit::ReplaceItem { index, before, after } => EditModel::ReplaceItem {
                index: *index as int,
                before: before.deep_view(),
                after: after.deep_view(),
            },
            Edit::ReplaceAll { before, after } => EditModel::ReplaceAll {
                before: before.deep_view(),
                after: after.deep_view(),
            },
        }
    }
}

// ---------------------------------------------------------------------------
// Journal semantics over the model.
// ---------------------------------------------------------------------------

/// Index of the first item equal to `x`, or -1.
pub open spec fn find_first(s: Seq<ItemModel>, x: ItemModel) -> int
    decreases s.len(),
{
    if s.len() == 0 {
        -1
    } else if s[0] == x {
        0
    } else {
        let r = find_first(s.subrange(1, s.len() as int), x);
        if r < 0 {
            -1
        } else {
            1 + r
        }
    }
}

pub proof fn lemma_find_first(s: Seq<ItemModel>, x: ItemModel)
    ensures
        find_first(s, x) < 0 ==> forall|j: int| 0 <= j < s.len() ==> s[j] != x,
        find_first(s, x) >= 0 ==> {
            &&& find_first(s, x) < s.len()
            &&& s[find_first(s, x)] == x
            &&& forall|j: int| 0 <= j < find_first(s, x) ==> s[j] != x
        },
    decreases s.len(),
{
    if s.len() != 0 && s[0] != x {
        let sub = s.subrange(1, s.len() as int);
        lemma_find_first(sub, x);
        assert(forall|j: int| 1 <= j < s.len() ==> s[j] == sub[j - 1]);
        if find_first(sub, x) >= 0 {
            assert(s[find_first(s, x)] == sub[find_first(sub, x)]);
        }
    }
}

/// The index the undo of an AddItem removes: the first item equal to the
/// added one, or, defensively, the last position.
pub open spec fn unapply_add_index(s: Seq<ItemModel>, x: ItemModel) -> int {
    let f = find_first(s, x);
    if f >= 0 {
        f
    } else if s.len() == 0 {
        0
    } else {
        s.len() - 1
    }
}

/// Index of the first shape item with the given id, or -1.
pub open spec fn shape_index(s: Seq<ItemModel>, id: u64) -> int
    decreases s.len(),
{
    if s.len() == 0 {
        -1
    } else if s[0] is Shape && s[0].id() == id {
        0
    } else {
        let r = shape_index(s.subrange(1, s.len() as int), id);
        if r < 0 {
            -1
        } else {
            1 + r
        }
    }
}

pub proof fn lemma_shape_index(s: Seq<ItemModel>, id: u64)
    ensures
        shape_index(s, id) < 0 ==> forall|j: int|
            0 <= j < s.len() ==> !(s[j] is Shape && s[j].id() == id),
        shape_index(s, id) >= 0 ==> {
            &&& shape_index(s, id) < s.len()
            &&& s[shape_index(s, id)] is Shape
            &&& s[shape_index(s, id)].id() == id
            &&& forall|j: int| 0 <= j < shape_index(s, id) ==> !(s[j] is Shape && s[j].id() == id)
        },
    decreases s.len(),
{
    if s.len() != 0 && !(s[0] is Shape && s[0].id() == id) {
        let sub = s.subrange(1, s.len() as int);
        lemma_shape_index(sub, id);
        assert(forall|j: int| 1 <= j < s.len() ==> s[j] == sub[j - 1]);
        if shape_index(sub, id) >= 0 {
            assert(s[shape_index(s, id)] == sub[shape_index(sub, id)]);
        }
    }
}

/// What applying an edit does to the item list.
pub open spec fn apply_edit(e: EditModel, s: Seq<ItemModel>) -> Seq<ItemModel> {
    match e {
        EditModel::AddItem(x) => s.push(x),
        EditModel::RemoveItem { index, .. } => if 0 <= index < s.len() {
            s.remove(index)
        } else {
            s
        },
        EditModel::ReplaceItem { index, after, .. } => if 0 <= index < s.len() {
            s.update(index, after)
        } else {
            s
        },
        EditModel::ReplaceAll { after, .. } => after,
    }
}

/// What unapplying an edit (applying its inverse) does to the item list.
pub open spec fn unapply_edit(e: EditModel, s: Seq<ItemModel>) -> Seq<ItemModel> {
    match e {
        EditModel::AddItem(x) => {
            let idx = unapply_add_index(s, x);
            if idx < s.len() {
                s.remove(idx)
            } else {
                s
            }
        },
        EditModel::RemoveItem { index, item } => {
            let at = if index <= s.len() {
                index
            } else {
                s.len() as int
            };
            s.insert(at, item)
        },
        EditModel::ReplaceItem { index, before, .. } => if 0 <= index < s.len() {
            s.update(index, before)
        } else {
            s
        },
        EditModel::ReplaceAll { before, .. } => before,
    }
}

/// The inverse recorded while unapplying an edit against the item list `s`.
pub open spec fn inverse_edit(e: EditModel, s: Seq<ItemModel>) -> EditModel {
    match e {
        EditModel::AddItem(x) => EditModel::RemoveItem { index: unapply_add_index(s, x), item: x },
        EditModel::RemoveItem { index, item } => EditModel::AddItem(item),
        EditModel::ReplaceItem { index, before, after } => EditModel::ReplaceItem {
            index,
            before: after,
            after: before,
        },
        EditModel::ReplaceAll { before, after } => EditModel::ReplaceAll {
            before: after,
            after: before,
        },
    }
}

/// The greatest id present, or 0 for an empty list.
pub open spec fn max_id(s: Seq<ItemModel>) -> u64
    decreases s.len(),
{
    if s.len() == 0 {
        0
    } else {
        let rest = max_id(s.drop_last());
        if s.last().id() >= rest {
            s.last().id()
        } else {
            rest
        }
    }
}

/// The id counter a loaded document starts from.
pub open spec fn next_id_after_load(s: Seq<ItemModel>) -> u64 {
    if max_id(s) == u64::MAX {
        u64::MAX
    } else {
        (max_id(s) + 1) as u64
    }
}

pub proof fn lemma_max_id_ge(s: Seq<ItemModel>, j: int)
    requires
        0 <= j < s.len(),
    ensures
        s[j].id() <= max_id(s),
    decreases s.len(),
{
    if j + 1 < s.len() {
        assert(s.drop_last()[j] == s[j]);
        lemma_max_id_ge(s.drop_last(), j);
    }
}

// ---------------------------------------------------------------------------
// Relating the deep view of a Vec<Item> to sequence operations.
// ---------------------------------------------------------------------------

/// The model of an item sequence.
pub open spec fn deep_of(s: Seq<Item>) -> Seq<ItemModel> {
    Seq::new(s.len(), |i: int| s[i].deep_view())
}

proof fn lemma_vec_deep_view(v: &Vec<Item>)
    ensures
        v.deep_view() == deep_of(v@),
{
    assert(v.deep_view() =~= deep_of(v@));
}

proof fn lemma_deep_push(s: Seq<Item>, x: Item)
    ensures
        deep_of(s.push(x)) == deep_of(s).push(x.deep_view()),
{
    assert(deep_of(s.push(x)) =~= deep_of(s).push(x.deep_view()));
}

proof fn lemma_deep_remove(s: Seq<Item>, i: int)
    requires
        0 <= i < s.len(),
    ensures
        deep_of(s.remove(i)) == deep_of(s).remove(i),
{
    assert(deep_of(s.remove(i)) =~= deep_of(s).remove(i));
}

proof fn lemma_deep_update(s: Seq<Item>, i: int, x: Item)
    requires
        0 <= i < s.len(),
    ensures
        deep_of(s.update(i, x)) == deep_of(s).update(i, x.deep_view()),
{
    assert(deep_of(s.update(i, x)) =~= deep_of(s).update(i, x.deep_view()));
}

proof fn lemma_deep_insert(s: Seq<Item>, i: int, x: Item)
    requires
        0 <= i <= s.len(),
    ensures
        deep_of(s.insert(i, x)) == deep_of(s).insert(i, x.deep_view()),
{
    assert(deep_of(s.insert(i, x)) =~= deep_of(s).insert(i, x.deep_view()));
}

// ---------------------------------------------------------------------------
// The store.
// ---------------------------------------------------------------------------

/// The mutable document state: items, the two journals, and the id counter.
#[derive(Debug)]
pub struct Store {
    items: Vec<Item>,
    undo: Vec<Edit>,
    redo: Vec<Edit>,
    next_id: u64,
}

impl Store {
    /// The item list, as a sequence of item models.
    pub closed spec fn items_model(&self) -> Seq<ItemModel> {
        deep_of(self.items@)
    }

    /// The undo journal, oldest first.
    pub closed spec fn undo_model(&self) -> Seq<EditModel> {
        deep_edits(self.undo@)
    }

    /// The redo journal, oldest first.
    pub closed spec fn redo_model(&self) -> Seq<EditModel> {
        deep_edits(self.redo@)
    }

    /// The id the next begin_stroke / begin_shape allocates.
    pub closed spec fn next_id_spec(&self) -> u64 {
        self.next_id
    }

    pub fn new() -> (s: Store)
        ensures
            s.items_model() == Seq::<ItemModel>::empty(),
            s.undo_model() == Seq::<EditModel>::empty(),
            s.redo_model() == Seq::<EditModel>::empty(),
            s.next_id_spec() == 0,
    {
        let s = Store { items: Vec::new(), undo: Vec::new(), redo: Vec::new(), next_id: 0 };
        proof {
            assert(s.items_model() =~= Seq::<ItemModel>::empty());
            assert(s.undo_model() =~= Seq::<EditModel>::empty());
            assert(s.redo_model() =~= Seq::<EditModel>::empty());
        }
        s
    }

    /// A snapshot at the current version; the store is unchanged.
    pub fn document(&self) -> (d: Document)
        ensures
            d.version == CURRENT_VERSION,
            d.items.deep_view() == self.items_model(),
    {
        Document { version: CURRENT_VERSION, items: clone_items(&self.items) }
    }

    /// Replaces the items, clears both journals, and restarts the id
    /// counter one past the greatest id present.
    pub fn load_document(&mut self, doc: Document)
        ensures
            final(self).items_model() == doc.items.deep_view(),
            final(self).undo_model() == Seq::<EditModel>::empty(),
            final(self).redo_model() == Seq::<EditModel>::empty(),
            final(self).next_id_spec() == next_id_after_load(doc.items.deep_view()),
    {
        proof {
            lemma_vec_deep_view(&doc.items);
        }
        self.items = doc.items;
        self.undo.clear();
        self.redo.clear();
        let n = self.items.len();
        let mut best: u64 = 0;
        let mut i: usize = 0;
        while i < n
            invariant
                n == self.items.len(),
                i <= n,
                best == max_id(self.items_model().subrange(0, i as int)),
            decreases n - i,
        {
            let id = self.items[i].id();
            proof {
                let sub1 = self.items_model().subrange(0, i + 1 as int);
                assert(sub1.drop_last() =~= self.items_model().subrange(0, i as int));
                assert(sub1.last() == self.items_model()[i as int]);
            }
            if id > best {
                best = id;
            }
            i = i + 1;
        }
        proof {
            assert(self.items_model().subrange(0, n as int) =~= self.items_model());
            assert(self.undo.deep_view() =~= Seq::<EditModel>::empty());
            assert(self.redo.deep_view() =~= Seq::<EditModel>::empty());
        }
        if best == u64::MAX {
            self.next_id = u64::MAX;
        } else {
            self.next_id = best + 1;
        }
    }

    /// Allocates a fresh id and returns a one-point stroke; the document
    /// and the journals are untouched.
    pub fn begin_stroke(&mut self, color: ColorRgba8, width: u32, start: Point) -> (s: Stroke)
        ensures
            s.id == old(self).next_id_spec(),
            s.color == color,
            s.width == width,
            s.points@ == seq![start],
            final(self).items_model() == old(self).items_model(),
            final(self).undo_model() == old(self).undo_model(),
            final(self).redo_model() == old(self).redo_model(),
            final(self).next_id_spec() == sat_inc(old(self).next_id_spec()),
    {
        let id = self.next_id;
        self.next_id = if self.next_id == u64::MAX {
            u64::MAX
        } else {
            self.next_id + 1
        };
        let mut points: Vec<Point> = Vec::new();
        points.push(start);
        proof {
            assert(points@ =~= seq![start]);
        }
        Stroke { id, color, width, points }
    }

    /// Appends the stroke as an item; journaled as AddItem, and the redo
    /// journal is cleared.
    pub fn commit_stroke(&mut self, stroke: Stroke)
        ensures
            final(self).items_model() == old(self).items_model().push(
                ItemModel::Stroke(stroke.deep_view()),
            ),
            final(self).undo_model() == old(self).undo_model().push(
                EditModel::AddItem(ItemModel::Stroke(stroke.deep_view())),
            ),
            final(self).redo_model() == Seq::<EditModel>::empty(),
            final(self).next_id_spec() == old(self).next_id_spec(),
    {
        self.apply(Edit::AddItem(Item::Stroke(stroke)));
    }

    /// Allocates a fresh id and returns a degenerate shape at `start`; the
    /// document and the journals are untouched.
    pub fn begin_shape(&mut self, kind: ShapeKind, style: ShapeStyle, start: Point) -> (sh: Shape)
        ensures
            sh.id == old(self).next_id_spec(),
            sh.kind == kind,
            sh.style == style,
            sh.start == start,
            sh.end == start,
            sh.start_attach_id is None,
            sh.end_attach_id is None,
            sh.start_attach_uv is None,
            sh.end_attach_uv is None,
            sh.text@ == Seq::<char>::empty(),
            sh.text_align_h == TextAlignH::Center,
            sh.text_align_v == TextAlignV::Middle,
            final(self).items_model() == old(self).items_model(),
            final(self).undo_model() == old(self).undo_model(),
            final(self).redo_model() == old(self).redo_model(),
            final(self).next_id_spec() == sat_inc(old(self).next_id_spec()),
    {
        let id = self.next_id;
        self.next_id = if self.next_id == u64::MAX {
            u64::MAX
        } else {
            self.next_id + 1
        };
        Shape {
            id,
            kind,
            style,
            start,
            end: start,
            start_attach_id: None,
            end_attach_id: None,
            start_attach_uv: None,
            end_attach_uv: None,
            text: String::new(),
            text_align_h: TextAlignH::Center,
            text_align_v: TextAlignV::Middle,
        }
    }

    /// Commits a shape.  If a shape with the same id is present, the first
    /// such item is replaced in place (the item count is unchanged);
    /// otherwise the shape is appended.  Either way one journal entry is
    /// made and the redo journal is cleared.
    pub fn commit_shape(&mut self, shape: Shape)
        ensures
            ({
                let s = old(self).items_model();
                let m = ItemModel::Shape(shape.deep_view());
                let idx = shape_index(s, shape.id);
                if idx >= 0 {
                    &&& final(self).items_model() == s.update(idx, m)
                    &&& final(self).items_model().len() == s.len()
                    &&& final(self).undo_model() == old(self).undo_model().push(
                        EditModel::ReplaceItem { index: idx, before: s[idx], after: m },
                    )
                } else {
                    &&& final(self).items_model() == s.push(m)
                    &&& final(self).undo_model() == old(self).undo_model().push(EditModel::AddItem(m))
                }
            }),
            final(self).redo_model() == Seq::<EditModel>::empty(),
            final(self).next_id_spec() == old(self).next_id_spec(),
    {
        let ghost s = self.items_model();
        let n = self.items.len();
        let mut i: usize = 0;
        let mut found: bool = false;
        while i < n && !found
            invariant
                n == self.items.len(),
                s == self.items_model(),
                i <= n,
                !found ==> forall|j: int| 0 <= j < i ==> !(s[j] is Shape && s[j].id() == shape.id),
                found ==> i < n && s[i as int] is Shape && s[i as int].id() == shape.id && (
                forall|j: int| 0 <= j < i ==> !(s[j] is Shape && s[j].id() == shape.id)),
            decreases n - i + if found {
                0int
            } else {
                1int
            },
        {
            let is_match = match &self.items[i] {
                Item::Shape(sh) => sh.id == shape.id,
                Item::Stroke(_) => false,
            };
            if is_match {
                proof {
                    assert(s[i as int] is Shape && s[i as int].id() == shape.id);
                }
                found = true;
            } else {
                proof {
                    assert(!(s[i as int] is Shape && s[i as int].id() == shape.id));
                }
                i = i + 1;
            }
        }
        proof {
            lemma_shape_index(s, shape.id);
        }
        if found {
            let index = i;
            let before = self.items[index].clone();
            proof {
                assert(shape_index(s, shape.id) == index as int);
            }
            self.apply(
                Edit::ReplaceItem { index, before, after: Item::Shape(shape) },
            );
        } else {
            proof {
                assert(shape_index(s, shape.id) < 0);
            }
            self.apply(Edit::AddItem(Item::Shape(shape)));
        }
    }

    /// Empties the document; journaled as a single ReplaceAll, and the redo
    /// journal is cleared.
    pub fn clear_all(&mut self)
        ensures
            final(self).items_model() == Seq::<ItemModel>::empty(),
            final(self).undo_model() == old(self).undo_model().push(
                EditModel::ReplaceAll {
                    before: old(self).items_model(),
                    after: Seq::<ItemModel>::empty(),
                },
            ),
            final(self).redo_model() == Seq::<EditModel>::empty(),
            final(self).next_id_spec() == old(self).next_id_spec(),
    {
        let before = clone_items(&self.items);
        let after: Vec<Item> = Vec::new();
        proof {
            assert(after.deep_view() =~= Seq::<ItemModel>::empty());
        }
        self.apply(Edit::ReplaceAll { before, after });
    }

    /// Read-only access to the item list.
    pub fn items(&self) -> (r: &Vec<Item>)
        ensures
            r.deep_view() == self.items_model(),
    {
        &self.items
    }

    pub fn can_undo(&self) -> (r: bool)
        ensures
            r == (self.undo_model().len() != 0),
    {
        self.undo.len() != 0
    }

    pub fn can_redo(&self) -> (r: bool)
        ensures
            r == (self.redo_model().len() != 0),
    {
        self.redo.len() != 0
    }

    /// Pops the undo journal, unapplies the edit, and records the inverse
    /// on the redo journal.  Fails exactly when the undo journal is empty.
    pub fn undo(&mut self) -> (r: Result<(), StoreError>)
        ensures
            old(self).undo_model().len() == 0 ==> {
                &&& r == Result::<(), StoreError>::Err(StoreError::CannotUndo)
                &&& final(self).items_model() == old(self).items_model()
                &&& final(self).undo_model() == old(self).undo_model()
                &&& final(self).redo_model() == old(self).redo_model()
                &&& final(self).next_id_spec() == old(self).next_id_spec()
            },
            old(self).undo_model().len() != 0 ==> {
                let e = old(self).undo_model().last();
                &&& r is Ok
                &&& final(self).items_model() == unapply_edit(e, old(self).items_model())
                &&& final(self).undo_model() == old(self).undo_model().drop_last()
                &&& final(self).redo_model() == old(self).redo_model().push(
                    inverse_edit(e, old(self).items_model()),
                )
                &&& final(self).next_id_spec() == old(self).next_id_spec()
            },
    {
        match self.undo.pop() {
            None => {
                proof {
                    assert(old(self).undo_model().len() == 0);
                }
                Err(StoreError::CannotUndo)
            },
            Some(edit) => {
                proof {
                    lemma_deep_edits_drop_last(old(self).undo@, self.undo@);
                }
                let inverse = self.unapply(&edit);
                let ghost mid = self.redo@;
                self.redo.push(inverse);
                proof {
                    lemma_deep_edits_push(mid, self.redo@);
                }
                Ok(())
            },
        }
    }

    /// Pops the redo journal, unapplies the edit, and records the inverse
    /// on the undo journal.  Fails exactly when the redo journal is empty.
    pub fn redo(&mut self) -> (r: Result<(), StoreError>)
        ensures
            old(self).redo_model().len() == 0 ==> {
                &&& r == Result::<(), StoreError>::Err(StoreError::CannotRedo)
                &&& final(self).items_model() == old(self).items_model()
                &&& final(self).undo_model() == old(self).undo_model()
                &&& final(self).redo_model() == old(self).redo_model()
                &&& final(self).next_id_spec() == old(self).next_id_spec()
            },
            old(self).redo_model().len() != 0 ==> {
                let e = old(self).redo_model().last();
                &&& r is Ok
                &&& final(self).items_model() == unapply_edit(e, old(self).items_model())
                &&& final(self).redo_model() == old(self).redo_model().drop_last()
                &&& final(self).undo_model() == old(self).undo_model().push(
                    inverse_edit(e, old(self).items_model()),
                )
                &&& final(self).next_id_spec() == old(self).next_id_spec()
            },
    {
        match self.redo.pop() {
            None => {
                proof {
                    assert(old(self).redo_model().len() == 0);
                }
                Err(StoreError::CannotRedo)
            },
            Some(edit) => {
                proof {
                    lemma_deep_edits_drop_last(old(self).redo@, self.redo@);
                }
                let inverse = self.unapply(&edit);
                let ghost mid = self.undo@;
                self.undo.push(inverse);
                proof {
                    lemma_deep_edits_push(mid, self.undo@);
                }
                Ok(())
            },
        }
    }



    /// Serializes the current document as version-2 JSON; emission cannot
    /// fail.
    pub fn to_json(&self) -> (r: Result<String, StoreError>)
        ensures
            r is Ok,
            r.unwrap()@ == spec_to_json(self.items_model()),
    {
        proof {
            lemma_vec_deep_view(&self.items);
        }
        Ok(items_to_json(&self.items))
    }

    /// Parses a document from JSON text, trying the current form first and
    /// the legacy strokes-only form second; fails with Serialization
    /// exactly when neither matches.
    pub fn from_json(json: &str) -> (r: Result<Document, StoreError>)
        ensures
            match spec_from_json(json@) {
                Some((ver, items)) => {
                    &&& r is Ok
                    &&& r.unwrap().version == ver
                    &&& r.unwrap().items.deep_view() == items
                },
                None => r == Result::<Document, StoreError>::Err(StoreError::Serialization),
            },
    {
        match document_from_json(json) {
            Some(doc) => Ok(doc),
            None => Err(StoreError::Serialization),
        }
    }

    /// Retains only the items farther than `radius` from `point` (both
    /// binary32 bit patterns).  Returns whether anything was removed; only
    /// then is a single ReplaceAll journaled and the redo journal cleared.
    pub fn erase_at(&mut self, point: Point, radius: u32) -> (r: bool)
        ensures
            r == exists|j: int|
                0 <= j < old(self).items_model().len() && #[trigger] spec_item_hit(
                    old(self).items_model()[j],
                    point,
                    mul_bits(radius, radius),
                ),
            !r ==> {
                &&& final(self).items_model() == old(self).items_model()
                &&& final(self).undo_model() == old(self).undo_model()
                &&& final(self).redo_model() == old(self).redo_model()
            },
            r ==> {
                &&& final(self).items_model() == erase_kept(
                    old(self).items_model(),
                    point,
                    mul_bits(radius, radius),
                )
                &&& final(self).undo_model() == old(self).undo_model().push(
                    EditModel::ReplaceAll {
                        before: old(self).items_model(),
                        after: erase_kept(
                            old(self).items_model(),
                            point,
                            mul_bits(radius, radius),
                        ),
                    },
                )
                &&& final(self).redo_model() == Seq::<EditModel>::empty()
            },
            final(self).next_id_spec() == old(self).next_id_spec(),
    {
        let ghost s = self.items_model();
        let r2 = f32_mul(radius, radius);
        if self.items.len() == 0 {
            return false;
        }
        let n = self.items.len();
        let mut kept: Vec<Item> = Vec::new();
        let mut any: bool = false;
        let mut i: usize = 0;
        while i < n
            invariant
                n == self.items.len(),
                s == self.items_model(),
                r2 == mul_bits(radius, radius),
                i <= n,
                any == exists|j: int|
                    0 <= j < i && #[trigger] spec_item_hit(s[j], point, r2),
                kept.deep_view() == erase_kept(s.subrange(0, i as int), point, r2),
            decreases n - i,
        {
            let ghost pre = kept.deep_view();
            let hit = item_intersects_point(&self.items[i], point, r2);
            if hit {
                proof {
                    assert(spec_item_hit(s[i as int], point, r2));
                }
                any = true;
            } else {
                kept.push(self.items[i].clone());
            }
            proof {
                let sub1 = s.subrange(0, i + 1 as int);
                assert(sub1.drop_last() =~= s.subrange(0, i as int));
                assert(sub1.last() == s[i as int]);
                if !spec_item_hit(s[i as int], point, r2) {
                    lemma_deep_push(kept@.drop_last(), kept@.last());
                    assert(kept@ =~= kept@.drop_last().push(kept@.last()));
                    assert(kept.deep_view() =~= pre.push(s[i as int]));
                }
                assert(kept.deep_view() == erase_kept(sub1, point, r2));
            }
            i = i + 1;
        }
        proof {
            assert(s.subrange(0, n as int) =~= s);
        }
        if !any {
            return false;
        }
        let before = clone_items(&self.items);
        self.apply(Edit::ReplaceAll { before, after: kept });
        true
    }

    /// Applies a new edit: the redo journal is cleared, the edit is applied
    /// to the items and pushed on the undo journal.
    fn apply(&mut self, edit: Edit)
        ensures
            final(self).items_model() == apply_edit(edit.deep_view(), old(self).items_model()),
            final(self).undo_model() == old(self).undo_model().push(edit.deep_view()),
            final(self).redo_model() == Seq::<EditModel>::empty(),
            final(self).next_id_spec() == old(self).next_id_spec(),
    {
        self.redo.clear();
        self.apply_no_history(&edit);
        let ghost mid = self.undo@;
        self.undo.push(edit);
        proof {
            assert(deep_edits(self.redo@) =~= Seq::<EditModel>::empty());
            lemma_deep_edits_push(mid, self.undo@);
        }
    }

    /// Applies an edit to the item list without journaling.
    fn apply_no_history(&mut self, edit: &Edit)
        ensures
            final(self).items_model() == apply_edit(edit.deep_view(), old(self).items_model()),
            final(self).undo_model() == old(self).undo_model(),
            final(self).redo_model() == old(self).redo_model(),
            final(self).next_id_spec() == old(self).next_id_spec(),
    {
        proof {
            lemma_vec_deep_view(&self.items);
        }
        match edit {
            Edit::AddItem(item) => {
                self.items.push(item.clone());
                proof {
                    lemma_deep_push(old(self).items@, self.items@[old(self).items@.len() as int]);
                    lemma_vec_deep_view(&self.items);
                    assert(self.items@ =~= old(self).items@.push(
                        self.items@[old(self).items@.len() as int],
                    ));
                    assert(self.items_model() =~= apply_edit(
                        edit.deep_view(),
                        old(self).items_model(),
                    ));
                }
            },
            Edit::RemoveItem { index, .. } => {
                if *index < self.items.len() {
                    self.items.remove(*index);
                    proof {
                        lemma_deep_remove(old(self).items@, *index as int);
                        lemma_vec_deep_view(&self.items);
                    }
                }
            },
            Edit::ReplaceItem { index, after, .. } => {
                if *index < self.items.len() {
                    self.items[*index] = after.clone();
                    proof {
                        lemma_deep_update(
                            old(self).items@,
                            *index as int,
                            self.items@[*index as int],
                        );
                        lemma_vec_deep_view(&self.items);
                        assert(self.items@ =~= old(self).items@.update(
                            *index as int,
                            self.items@[*index as int],
                        ));
                        assert(self.items_model() =~= apply_edit(
                            edit.deep_view(),
                            old(self).items_model(),
                        ));
                    }
                }
            },
            Edit::ReplaceAll { after, .. } => {
                self.items = clone_items(after);
            },
        }
    }

    /// Unapplies an edit (applies its inverse) and returns the inverse,
    /// recomputed against the current item list.
    fn unapply(&mut self, edit: &Edit) -> (inv: Edit)
        ensures
            final(self).items_model() == unapply_edit(edit.deep_view(), old(self).items_model()),
            inv.deep_view() == inverse_edit(edit.deep_view(), old(self).items_model()),
            final(self).undo_model() == old(self).undo_model(),
            final(self).redo_model() == old(self).redo_model(),
            final(self).next_id_spec() == old(self).next_id_spec(),
    {
        let ghost s = self.items_model();
        match edit {
            Edit::AddItem(item) => {
                let ghost xm = item.deep_view();
                let n = self.items.len();
                let mut i: usize = 0;
                let mut found: bool = false;
                while i < n && !found
                    invariant
                        n == self.items.len(),
                        s == self.items_model(),
                        xm == item.deep_view(),
                        i <= n,
                        !found ==> forall|j: int| 0 <= j < i ==> s[j] != xm,
                        found ==> i < n && s[i as int] == xm && (forall|j: int|
                            0 <= j < i ==> s[j] != xm),
                    decreases n - i + if found {
                        0int
                    } else {
                        1int
                    },
                {
                    if item_eq(&self.items[i], item) {
                        proof {
                            assert(s[i as int] == xm);
                        }
                        found = true;
                    } else {
                        proof {
                            assert(s[i as int] != xm);
                        }
                        i = i + 1;
                    }
                }
                proof {
                    lemma_find_first(s, xm);
                }
                let index: usize = if found {
                    proof {
                        assert(find_first(s, xm) == i as int);
                    }
                    i
                } else {
                    proof {
                        assert(find_first(s, xm) < 0);
                    }
                    if n == 0 {
                        0
                    } else {
                        n - 1
                    }
                };
                proof {
                    assert(index as int == unapply_add_index(s, xm));
                }
                if index < self.items.len() {
                    proof {
                        lemma_vec_deep_view(&self.items);
                    }
                    self.items.remove(index);
                    proof {
                        lemma_deep_remove(old(self).items@, index as int);
                        lemma_vec_deep_view(&self.items);
                    }
                }
                Edit::RemoveItem { index, item: item.clone() }
            },
            Edit::RemoveItem { index, item } => {
                let at = if *index <= self.items.len() {
                    *index
                } else {
                    self.items.len()
                };
                proof {
                    lemma_vec_deep_view(&self.items);
                }
                let it = item.clone();
                self.items.insert(at, it);
                proof {
                    lemma_deep_insert(old(self).items@, at as int, self.items@[at as int]);
                    lemma_vec_deep_view(&self.items);
                    assert(self.items@ =~= old(self).items@.insert(
                        at as int,
                        self.items@[at as int],
                    ));
                    assert(self.items_model() =~= unapply_edit(edit.deep_view(), s));
                }
                Edit::AddItem(item.clone())
            },
            Edit::ReplaceItem { index, before, after } => {
                if *index < self.items.len() {
                    proof {
                        lemma_vec_deep_view(&self.items);
                    }
                    self.items[*index] = before.clone();
                    proof {
                        lemma_deep_update(
                            old(self).items@,
                            *index as int,
                            self.items@[*index as int],
                        );
                        lemma_vec_deep_view(&self.items);
                        assert(self.items@ =~= old(self).items@.update(
                            *index as int,
                            self.items@[*index as int],
                        ));
                        assert(self.items_model() =~= unapply_edit(edit.deep_view(), s));
                    }
                }
                Edit::ReplaceItem {
                    index: *index,
                    before: after.clone(),
                    after: before.clone(),
                }
            },
            Edit::ReplaceAll { before, after } => {
                self.items = clone_items(before);
                Edit::ReplaceAll { before: clone_items(after), after: clone_items(before) }
            },
        }
    }
}


/// The items that survive an erase: those the probe does not hit, in order.
pub open spec fn erase_kept(s: Seq<ItemModel>, p: Point, r2: u32) -> Seq<ItemModel>
    decreases s.len(),
{
    if s.len() == 0 {
        Seq::empty()
    } else {
        let rest = erase_kept(s.drop_last(), p, r2);
        if spec_item_hit(s.last(), p, r2) {
            rest
        } else {
            rest.push(s.last())
        }
    }
}

/// Saturating increment of the id counter.
pub open spec fn sat_inc(n: u64) -> u64 {
    if n == u64::MAX {
        u64::MAX
    } else {
        (n + 1) as u64
    }
}

/// The model of an edit sequence.
pub open spec fn deep_edits(s: Seq<Edit>) -> Seq<EditModel> {
    Seq::new(s.len(), |i: int| s[i].deep_view())
}

proof fn lemma_deep_edits_push(pre: Seq<Edit>, post: Seq<Edit>)
    requires
        post == pre.push(post.last()),
    ensures
        deep_edits(post) == deep_edits(pre).push(post.last().deep_view()),
{
    assert(deep_edits(post) =~= deep_edits(pre).push(post.last().deep_view()));
}

proof fn lemma_deep_edits_drop_last(pre: Seq<Edit>, post: Seq<Edit>)
    requires
        pre.len() != 0,
        post == pre.drop_last(),
    ensures
        deep_edits(post) == deep_edits(pre).drop_last(),
        deep_edits(pre).last() == pre.last().deep_view(),
{
    assert(deep_edits(post) =~= deep_edits(pre).drop_last());
}


// ---------------------------------------------------------------------------
// Laws of the journal.
// ---------------------------------------------------------------------------

/// When a journal entry is well-formed against the list it is applied to:
/// an added item is not already present by value (guaranteed when ids are
/// fresh); a removal names the first occurrence of the removed item; a
/// replacement names the replaced item; a wholesale replacement starts from
/// the current list.  Entries produced by the store's own mutations on a
/// document with distinct ids satisfy this.
pub open spec fn edit_wf(e: EditModel, s: Seq<ItemModel>) -> bool {
    match e {
        EditModel::AddItem(x) => forall|j: int| 0 <= j < s.len() ==> s[j] != x,
        EditModel::RemoveItem { index, item } => {
            &&& 0 <= index < s.len()
            &&& s[index] == item
            &&& forall|j: int| 0 <= j < index ==> s[j] != item
        },
        EditModel::ReplaceItem { index, before, .. } => 0 <= index < s.len() && s[index] == before,
        EditModel::ReplaceAll { before, .. } => before == s,
    }
}

/// No item of `s` has the id `id`.
pub open spec fn id_fresh(s: Seq<ItemModel>, id: u64) -> bool {
    forall|j: int| 0 <= j < s.len() ==> s[j].id() != id
}

/// An added item whose id is fresh makes a well-formed AddItem entry.
pub proof fn lemma_fresh_add_is_wf(s: Seq<ItemModel>, x: ItemModel)
    requires
        id_fresh(s, x.id()),
    ensures
        edit_wf(EditModel::AddItem(x), s),
{
}

/// Undoing an edit restores the item list it was applied to.
pub proof fn lemma_unapply_reverts_apply(e: EditModel, s: Seq<ItemModel>)
    requires
        edit_wf(e, s),
    ensures
        unapply_edit(e, apply_edit(e, s)) == s,
{
    match e {
        EditModel::AddItem(x) => {
            let t = s.push(x);
            lemma_find_first(t, x);
            let f = find_first(t, x);
            assert(t[s.len() as int] == x);
            assert(f >= 0);
            assert(f == s.len()) by {
                if f < s.len() {
                    assert(t[f] == s[f]);
                }
            }
            assert(t.remove(f) =~= s);
        },
        EditModel::RemoveItem { index, item } => {
            let t = s.remove(index);
            assert(t.insert(index, item) =~= s);
        },
        EditModel::ReplaceItem { index, before, after } => {
            let t = s.update(index, after);
            assert(t.update(index, before) =~= s);
        },
        EditModel::ReplaceAll { before, after } => {},
    }
}

/// Redoing the inverse recorded by an undo re-applies the original edit.
pub proof fn lemma_redo_replays(e: EditModel, s: Seq<ItemModel>)
    requires
        edit_wf(e, s),
    ensures
        unapply_edit(inverse_edit(e, apply_edit(e, s)), s) == apply_edit(e, s),
{
    match e {
        EditModel::AddItem(x) => {
            let t = s.push(x);
            lemma_find_first(t, x);
            let f = find_first(t, x);
            assert(t[s.len() as int] == x);
            assert(f == s.len()) by {
                if 0 <= f < s.len() {
                    assert(t[f] == s[f]);
                }
            }
            assert(s.insert(s.len() as int, x) =~= s.push(x));
        },
        EditModel::RemoveItem { index, item } => {
            lemma_find_first(s, item);
            let f = find_first(s, item);
            assert(f == index) by {
                if f < index {
                    assert(f >= 0 ==> s[f] == item);
                    assert(f < 0 ==> s[index] != item);
                }
            }
        },
        EditModel::ReplaceItem { index, before, after } => {
            let t = s.update(index, after);
            assert(t.update(index, after) =~= t);
        },
        EditModel::ReplaceAll { before, after } => {},
    }
}

/// The state after applying a list of edits in order.
pub open spec fn apply_seq(edits: Seq<EditModel>, s: Seq<ItemModel>) -> Seq<ItemModel>
    decreases edits.len(),
{
    if edits.len() == 0 {
        s
    } else {
        apply_edit(edits.last(), apply_seq(edits.drop_last(), s))
    }
}

/// Every edit of the list is well-formed against the state it meets.
pub open spec fn wf_seq(edits: Seq<EditModel>, s: Seq<ItemModel>) -> bool
    decreases edits.len(),
{
    if edits.len() == 0 {
        true
    } else {
        wf_seq(edits.drop_last(), s) && edit_wf(edits.last(), apply_seq(edits.drop_last(), s))
    }
}

/// The state after undoing the edits, newest first: exactly what n calls of
/// `undo` compute, the undo journal holding `edits`.
pub open spec fn undo_all(edits: Seq<EditModel>, t: Seq<ItemModel>) -> Seq<ItemModel>
    decreases edits.len(),
{
    if edits.len() == 0 {
        t
    } else {
        undo_all(edits.drop_last(), unapply_edit(edits.last(), t))
    }
}

/// The state after redoing all the inverses those undos pushed, newest
/// undone first: each redo step unapplies the inverse that the undo of
/// `edits[k]` recorded against the state it saw.
pub open spec fn redo_all(edits: Seq<EditModel>, s: Seq<ItemModel>) -> Seq<ItemModel>
    decreases edits.len(),
{
    if edits.len() == 0 {
        s
    } else {
        unapply_edit(
            inverse_edit(edits.last(), apply_seq(edits, s)),
            redo_all(edits.drop_last(), s),
        )
    }
}

/// Applying a well-formed list of mutations and then undoing each of them,
/// newest first, restores the initial item list exactly.
pub proof fn lemma_undo_all_restores(edits: Seq<EditModel>, s: Seq<ItemModel>)
    requires
        wf_seq(edits, s),
    ensures
        undo_all(edits, apply_seq(edits, s)) == s,
    decreases edits.len(),
{
    if edits.len() != 0 {
        let mid = apply_seq(edits.drop_last(), s);
        lemma_unapply_reverts_apply(edits.last(), mid);
        lemma_undo_all_restores(edits.drop_last(), s);
    }
}

/// After such a round of undos, redoing each recorded inverse, in order,
/// rebuilds exactly the state the mutations had produced.
pub proof fn lemma_redo_all_replays(edits: Seq<EditModel>, s: Seq<ItemModel>)
    requires
        wf_seq(edits, s),
    ensures
        redo_all(edits, s) == apply_seq(edits, s),
    decreases edits.len(),
{
    if edits.len() != 0 {
        let mid = apply_seq(edits.drop_last(), s);
        lemma_redo_all_replays(edits.drop_last(), s);
        lemma_redo_replays(edits.last(), mid);
    }
}

/// After a load, every id present is strictly below the id counter, so the
/// ids that begin_stroke / begin_shape allocate never collide with loaded
/// items (as long as the counter has not saturated).
pub proof fn lemma_load_allocates_fresh(s: Seq<ItemModel>)
    requires
        max_id(s) < u64::MAX,
    ensures
        forall|j: int| 0 <= j < s.len() ==> s[j].id() < next_id_after_load(s),
        id_fresh(s, next_id_after_load(s)),
    decreases s.len(),
{
    assert forall|j: int| 0 <= j < s.len() implies s[j].id() < next_id_after_load(s) by {
        lemma_max_id_ge(s, j);
    }
}

} // verus!
