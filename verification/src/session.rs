//! The decode session: a cursor, the child table, and the cache that makes
//! every child object decode at most once.

use vstd::prelude::*;
use std::rc::Rc;
use crate::cursor::ByteCursor;
use crate::error::{ErrorKind, ErrorKindView, RszError, RszErrorView};
use crate::field::{decode_leaf, leaf_model};
use crate::model::{
    child_model,
    elements_model,
    field_model,
    fields_model,
    object_model,
    ChildEntry,
    Input,
};
use crate::schema::{resolve_plan, FieldPlan, FieldType, TypeDescriptor};
use crate::value::{
    fields_view,
    object_view,
    values_view,
    DecodedField,
    DecodedObject,
    DecodedValue,
    FieldView,
    ObjectView,
    ValueView,
};

verus! {

/// The state of one entry of the child table.
enum Slot {
    /// Not decoded yet.
    Pending,
    /// Being decoded right now.
    Active,
    /// Decoded; every reference gets this object.
    Resolved(Rc<DecodedObject>),
}

/// The number of pending slots.
spec fn pending_in(slots: Seq<Slot>) -> nat
    decreases slots.len(),
{
    if slots.len() == 0 {
        0
    } else {
        pending_in(slots.drop_last()) + if slots.last() is Pending {
            1nat
        } else {
            0nat
        }
    }
}

proof fn lemma_pending_update(slots: Seq<Slot>, i: int, s: Slot)
    requires
        0 <= i < slots.len(),
    ensures
        pending_in(slots.update(i, s)) + (if slots[i] is Pending {
            1nat
        } else {
            0nat
        }) == pending_in(slots) + (if s is Pending {
            1nat
        } else {
            0nat
        }),
    decreases slots.len(),
{
    if i == slots.len() - 1 {
        assert(slots.update(i, s).drop_last() =~= slots.drop_last());
    } else {
        assert(slots.update(i, s).drop_last() =~= slots.drop_last().update(i, s));
        lemma_pending_update(slots.drop_last(), i, s);
    }
}

proof fn lemma_pending_monotone(before: Seq<Slot>, after: Seq<Slot>)
    requires
        before.len() == after.len(),
        forall|k: int| 0 <= k < after.len() && after[k] is Pending ==> before[k] is Pending,
    ensures
        pending_in(after) <= pending_in(before),
    decreases before.len(),
{
    if before.len() > 0 {
        lemma_pending_monotone(before.drop_last(), after.drop_last());
    }
}

/// `done` followed by what `rest` yields.
spec fn after_values(done: Seq<ValueView>, rest: Result<(Seq<ValueView>, int), RszErrorView>) -> Result<
    (Seq<ValueView>, int),
    RszErrorView,
> {
    match rest {
        Ok((more, end)) => Ok((done + more, end)),
        Err(e) => Err(e),
    }
}

/// `done` followed by what `rest` yields.
spec fn after_fields(done: Seq<FieldView>, rest: Result<(Seq<FieldView>, int), RszErrorView>) -> Result<
    (Seq<FieldView>, int),
    RszErrorView,
> {
    match rest {
        Ok((more, end)) => Ok((done + more, end)),
        Err(e) => Err(e),
    }
}

/// `Rc::clone` of the standard library: another handle to the same object.
#[verifier::external_body]
fn share(object: &Rc<DecodedObject>) -> (r: Rc<DecodedObject>)
    ensures
        r == *object,
{
    Rc::clone(object)
}

/// One decode of an object graph: the cursor over the buffer, the child
/// table, and the objects resolved so far.
pub struct DecodeSession<'a> {
    catalog: &'a Vec<TypeDescriptor>,
    cursor: ByteCursor,
    children: Vec<ChildEntry>,
    slots: Vec<Slot>,
    decodes: u64,
}

impl<'a> DecodeSession<'a> {
    /// What the session decodes from.
    pub closed spec fn input(&self) -> Input {
        Input { catalog: self.catalog@, bytes: self.cursor.bytes(), children: self.children@ }
    }

    /// The current offset of the cursor.
    pub closed spec fn offset(&self) -> int {
        self.cursor.offset()
    }

    /// The object already resolved for child index `index`, if any.
    pub closed spec fn cached(&self, index: int) -> Option<DecodedObject> {
        if 0 <= index < self.slots@.len() {
            match self.slots@[index] {
                Slot::Resolved(object) => Some(*object),
                _ => None,
            }
        } else {
            None
        }
    }

    /// How many child objects the session has started to decode.
    pub closed spec fn decodes(&self) -> nat {
        self.decodes as nat
    }

    /// The indices that are not resolved yet.
    spec fn open_slots(&self) -> Set<int> {
        Set::new(|k: int| 0 <= k < self.slots@.len() && !(self.slots@[k] is Resolved))
    }

    /// The indices that are being decoded right now.
    spec fn busy(&self) -> Set<int> {
        Set::new(|k: int| 0 <= k < self.slots@.len() && self.slots@[k] is Active)
    }

    spec fn pending(&self) -> nat {
        pending_in(self.slots@)
    }

    /// Every resolved slot holds what the child's index stands for, whatever
    /// unresolved objects the reference may stand inside of.
    spec fn wf(&self) -> bool {
        &&& self.slots@.len() == self.children@.len()
        &&& forall|k: int, a: Set<int>|
            0 <= k < self.slots@.len() && self.slots@[k] is Resolved && a.subset_of(
                self.open_slots(),
            ) ==> #[trigger] child_model(self.input(), a, k) == Ok::<ObjectView, RszErrorView>(
                object_view(*self.slots@[k]->Resolved_0),
            )
    }

    /// The session is consistent and between two decodes.
    pub closed spec fn ready(&self) -> bool {
        &&& self.wf()
        &&& forall|k: int| 0 <= k < self.slots@.len() ==> !(self.slots@[k] is Active)
    }

    /// `next` is a later state of this session: what was resolved stays
    /// resolved, and the same objects are being decoded.
    spec fn evolves(&self, next: &Self) -> bool {
        &&& next.input() == self.input()
        &&& next.slots@.len() == self.slots@.len()
        &&& next.decodes >= self.decodes
        &&& forall|k: int|
            0 <= k < self.slots@.len() ==> {
                &&& (self.slots@[k] is Resolved ==> next.slots@[k] == self.slots@[k])
                &&& (self.slots@[k] is Active <==> next.slots@[k] is Active)
            }
    }

    proof fn lemma_evolves(&self, next: &Self)
        requires
            self.evolves(next),
        ensures
            next.open_slots().subset_of(self.open_slots()),
            next.busy() == self.busy(),
            next.pending() <= self.pending(),
            self.busy().subset_of(self.open_slots()),
    {
        assert(next.busy() =~= self.busy());
        lemma_pending_monotone(self.slots@, next.slots@);
    }

    proof fn lemma_evolves_trans(&self, mid: &Self, next: &Self)
        requires
            self.evolves(mid),
            mid.evolves(next),
        ensures
            self.evolves(next),
    {
    }

    /// What the cache holds for an index is what the index stands for: the
    /// object that a decode without any cache gives.
    pub proof fn lemma_cache_agrees(&self, index: int)
        requires
            self.ready(),
            self.cached(index) is Some,
        ensures
            child_model(self.input(), Set::empty(), index) == Ok::<ObjectView, RszErrorView>(
                object_view(self.cached(index)->Some_0),
            ),
    {
        assert(Set::<int>::empty().subset_of(self.open_slots()));
    }

    /// A session over `bytes` with nothing resolved yet. `children` is the
    /// child table: entry `i` describes the object that index `i` refers to.
    pub fn new(catalog: &'a Vec<TypeDescriptor>, bytes: Vec<u8>, children: Vec<ChildEntry>) -> (s: Self)
        ensures
            s.ready(),
            s.input() == (Input { catalog: catalog@, bytes: bytes@, children: children@ }),
            s.offset() == 0,
            s.decodes() == 0,
            forall|k: int| s.cached(k) is None,
    {
        let mut slots: Vec<Slot> = Vec::new();
        let mut i: usize = 0;
        while i < children.len()
            invariant
                i <= children.len(),
                slots@.len() == i,
                forall|k: int| 0 <= k < slots@.len() ==> slots@[k] is Pending,
            decreases children.len() - i,
        {
            slots.push(Slot::Pending);
            i += 1;
        }
        DecodeSession { catalog, cursor: ByteCursor::new(bytes), children, slots, decodes: 0 }
    }

    /// The current offset of the cursor.
    pub fn position(&self) -> (p: usize)
        ensures
            p == self.offset(),
    {
        self.cursor.position()
    }

    /// How many child objects the session has started to decode.
    pub fn decode_count(&self) -> (n: u64)
        ensures
            n == self.decodes(),
    {
        self.decodes
    }

    /// Moves the cursor to the absolute offset `pos`; fails with
    /// `UnexpectedEof`, and stays put, where `pos` lies beyond the buffer.
    pub fn seek(&mut self, pos: usize) -> (r: Result<(), RszError>)
        requires
            old(self).ready(),
        ensures
            final(self).ready(),
            final(self).input() == old(self).input(),
            final(self).decodes() == old(self).decodes(),
            forall|k: int| final(self).cached(k) == old(self).cached(k),
            match r {
                Ok(_) => pos <= old(self).input().bytes.len() && final(self).offset() == pos,
                Err(e) => pos > old(self).input().bytes.len() && final(self).offset() == old(
                    self,
                ).offset() && e@ == RszErrorView::bare(ErrorKindView::UnexpectedEof),
            },
    {
        let r = self.cursor.seek(pos);
        proof {
            assert(self.open_slots() =~= old(self).open_slots());
        }
        r
    }

    /// The object already resolved for child index `index`, if any.
    pub fn cached_child(&self, index: u32) -> (r: Option<Rc<DecodedObject>>)
        ensures
            match r {
                Some(object) => self.cached(index as int) == Some(*object),
                None => self.cached(index as int) is None,
            },
    {
        let i = index as usize;
        if i >= self.slots.len() {
            return None;
        }
        match &self.slots[i] {
            Slot::Resolved(object) => Some(share(object)),
            _ => None,
        }
    }

    /// Decodes one field of layout `ty` at the cursor by schema version
    /// `version`, resolving the child objects it refers to. On failure the
    /// cursor is back where it was.
    pub fn decode_field(&mut self, ty: &FieldType, version: u32) -> (r: Result<DecodedValue, RszError>)
        requires
            old(self).ready(),
        ensures
            final(self).ready(),
            final(self).input() == old(self).input(),
            final(self).decodes() >= old(self).decodes(),
            forall|k: int| old(self).cached(k) is Some ==> final(self).cached(k) == old(self).cached(k),
            match r {
                Ok(v) => field_model(
                    old(self).input(),
                    Set::empty(),
                    *ty,
                    old(self).offset(),
                    version,
                ) == Ok::<(ValueView, int), RszErrorView>((v@, final(self).offset())),
                Err(e) => field_model(
                    old(self).input(),
                    Set::empty(),
                    *ty,
                    old(self).offset(),
                    version,
                ) == Err::<(ValueView, int), RszErrorView>(e@) && final(self).offset() == old(
                    self,
                ).offset(),
            },
    {
        proof {
            assert(self.busy() =~= Set::<int>::empty());
        }
        let start = self.cursor.position();
        let r = self.field(ty, version);
        proof {
            assert(Set::<int>::empty().subset_of(self.open_slots()));
        }
        match r {
            Ok(v) => Ok(v),
            Err(e) => {
                let ghost failed = *self;
                let _ = self.cursor.seek(start);
                proof {
                    assert(self.open_slots() =~= failed.open_slots());
                }
                Err(e)
            },
        }
    }

    /// Resolves the child object that index `index` of the table refers
    /// to. The first resolution decodes the object at its registered offset
    /// and caches it; every later one hands out the cached object and
    /// leaves the session as it is.
    pub fn resolve_child(&mut self, index: u32) -> (r: Result<Rc<DecodedObject>, RszError>)
        requires
            old(self).ready(),
        ensures
            final(self).ready(),
            final(self).input() == old(self).input(),
            final(self).offset() == old(self).offset(),
            final(self).decodes() >= old(self).decodes(),
            forall|k: int| old(self).cached(k) is Some ==> final(self).cached(k) == old(self).cached(k),
            match r {
                Ok(object) => final(self).cached(index as int) == Some(*object) && child_model(
                    old(self).input(),
                    Set::empty(),
                    index as int,
                ) == Ok::<ObjectView, RszErrorView>(object_view(*object)),
                Err(e) => child_model(old(self).input(), Set::empty(), index as int) == Err::<
                    ObjectView,
                    RszErrorView,
                >(e@),
            },
            old(self).cached(index as int) matches Some(o) ==> r matches Ok(object) && *object == o
                && *final(self) == *old(self),
            old(self).cached(index as int) is None && r is Ok ==> final(self).decodes() > old(
                self,
            ).decodes() || final(self).decodes() == u64::MAX,
    {
        proof {
            assert(self.busy() =~= Set::<int>::empty());
        }
        let r = self.child(index);
        proof {
            assert(Set::<int>::empty().subset_of(self.open_slots()));
        }
        r
    }

    /// Decodes the root object: an object of type `symbol` whose bytes
    /// start at `offset` and whose stored content hash is `hash`. The hash
    /// selects the schema version among those the type declares; the
    /// cursor ends where it was.
    pub fn decode_root(&mut self, symbol: &String, hash: u32, offset: usize) -> (r: Result<
        DecodedObject,
        RszError,
    >)
        requires
            old(self).ready(),
        ensures
            final(self).ready(),
            final(self).input() == old(self).input(),
            final(self).offset() == old(self).offset(),
            final(self).decodes() >= old(self).decodes(),
            forall|k: int| old(self).cached(k) is Some ==> final(self).cached(k) == old(self).cached(k),
            match r {
                Ok(object) => object_model(
                    old(self).input(),
                    Set::empty(),
                    symbol@,
                    hash,
                    offset as int,
                ) == Ok::<ObjectView, RszErrorView>(object_view(object)),
                Err(e) => object_model(old(self).input(), Set::empty(), symbol@, hash, offset as int)
                    == Err::<ObjectView, RszErrorView>(e@),
            },
    {
        proof {
            assert(self.busy() =~= Set::<int>::empty());
        }
        let r = self.object(symbol, hash, offset);
        proof {
            assert(Set::<int>::empty().subset_of(self.open_slots()));
        }
        r
    }

    /// Decodes a field of layout `ty` at the cursor.
    fn field(&mut self, ty: &FieldType, version: u32) -> (r: Result<DecodedValue, RszError>)
        requires
            old(self).wf(),
        ensures
            final(self).wf(),
            old(self).evolves(final(self)),
            match r {
                Ok(v) => forall|a: Set<int>|
                    a.subset_of(final(self).open_slots()) ==> #[trigger] field_model(
                        old(self).input(),
                        a,
                        *ty,
                        old(self).offset(),
                        version,
                    ) == Ok::<(ValueView, int), RszErrorView>((v@, final(self).offset())),
                Err(e) => field_model(
                    old(self).input(),
                    old(self).busy(),
                    *ty,
                    old(self).offset(),
                    version,
                ) == Err::<(ValueView, int), RszErrorView>(e@),
            },
        decreases old(self).pending(), 1int, ty, 0int,
    {
        let ghost input = self.input();
        let ghost start = self.offset();
        match ty {
            FieldType::Sequence(elem) => {
                let count = match self.cursor.read_u32() {
                    Ok(c) => c,
                    Err(e) => {
                        return Err(e);
                    },
                };
                let ghost mid = *self;
                match self.elements(elem, count, version) {
                    Ok(items) => {
                        proof {
                            old(self).lemma_evolves_trans(&mid, self);
                            assert forall|a: Set<int>| a.subset_of(self.open_slots()) implies #[trigger]
                                field_model(input, a, *ty, start, version) == Ok::<
                                (ValueView, int),
                                RszErrorView,
                            >((ValueView::Sequence(values_view(items@)), self.offset())) by {
                                assert(elements_model(
                                    input,
                                    a,
                                    **elem,
                                    mid.offset(),
                                    version,
                                    count as nat,
                                ) == Ok::<(Seq<ValueView>, int), RszErrorView>(
                                    (values_view(items@), self.offset()),
                                ));
                            }
                        }
                        Ok(DecodedValue::Sequence(items))
                    },
                    Err(e) => {
                        proof {
                            old(self).lemma_evolves_trans(&mid, self);
                            assert(mid.busy() =~= old(self).busy());
                        }
                        Err(e)
                    },
                }
            },
            FieldType::FixedArray(elem, len) => {
                let count = match self.cursor.read_u32() {
                    Ok(c) => c,
                    Err(e) => {
                        return Err(e);
                    },
                };
                let ghost mid = *self;
                match self.elements(elem, count, version) {
                    Ok(items) => {
                        proof {
                            old(self).lemma_evolves_trans(&mid, self);
                            old(self).lemma_evolves(self);
                            mid.lemma_evolves(self);
                            assert(mid.busy() =~= old(self).busy());
                            assert(self.busy().subset_of(self.open_slots())) by {
                                self.lemma_evolves(self);
                            }
                        }
                        if count as usize == *len {
                            proof {
                                assert forall|a: Set<int>|
                                    a.subset_of(self.open_slots()) implies #[trigger] field_model(
                                    input,
                                    a,
                                    *ty,
                                    start,
                                    version,
                                ) == Ok::<(ValueView, int), RszErrorView>(
                                    (ValueView::Sequence(values_view(items@)), self.offset()),
                                ) by {
                                    assert(elements_model(
                                        input,
                                        a,
                                        **elem,
                                        mid.offset(),
                                        version,
                                        count as nat,
                                    ) == Ok::<(Seq<ValueView>, int), RszErrorView>(
                                        (values_view(items@), self.offset()),
                                    ));
                                }
                            }
                            Ok(DecodedValue::Sequence(items))
                        } else {
                            proof {
                                let a = old(self).busy();
                                assert(a.subset_of(self.open_slots()));
                                assert(elements_model(
                                    input,
                                    a,
                                    **elem,
                                    mid.offset(),
                                    version,
                                    count as nat,
                                ) == Ok::<(Seq<ValueView>, int), RszErrorView>(
                                    (values_view(items@), self.offset()),
                                ));
                            }
                            Err(
                                RszError::new(
                                    ErrorKind::ArraySizeMismatch {
                                        expected: *len,
                                        actual: count as usize,
                                    },
                                ),
                            )
                        }
                    },
                    Err(e) => {
                        proof {
                            old(self).lemma_evolves_trans(&mid, self);
                            assert(mid.busy() =~= old(self).busy());
                        }
                        Err(e)
                    },
                }
            },
            FieldType::Versioned(gate) => {
                if gate.is_present(version) {
                    match self.field(&gate.inner, version) {
                        Ok(v) => {
                            proof {
                                assert forall|a: Set<int>|
                                    a.subset_of(self.open_slots()) implies #[trigger] field_model(
                                    input,
                                    a,
                                    *ty,
                                    start,
                                    version,
                                ) == Ok::<(ValueView, int), RszErrorView>(
                                    (ValueView::Versioned(Some(Box::new(v@))), self.offset()),
                                ) by {
                                    assert(field_model(input, a, *gate.inner, start, version) == Ok::<
                                        (ValueView, int),
                                        RszErrorView,
                                    >((v@, self.offset())));
                                }
                            }
                            Ok(DecodedValue::Versioned(Some(Box::new(v))))
                        },
                        Err(e) => Err(e),
                    }
                } else {
                    Ok(DecodedValue::Versioned(None))
                }
            },
            FieldType::Flatten(nested) => {
                match self.cursor.seek_align_up(4) {
                    Ok(_) => {},
                    Err(e) => {
                        return Err(e);
                    },
                }
                let ghost mid = *self;
                match self.fields(&nested.fields, version) {
                    Ok(fields) => {
                        proof {
                            old(self).lemma_evolves_trans(&mid, self);
                            assert forall|a: Set<int>| a.subset_of(self.open_slots()) implies #[trigger]
                                field_model(input, a, *ty, start, version) == Ok::<
                                (ValueView, int),
                                RszErrorView,
                            >((ValueView::Flatten(fields_view(fields@)), self.offset())) by {
                                assert(fields_model(
                                    input,
                                    a,
                                    nested.fields@,
                                    0,
                                    mid.offset(),
                                    version,
                                ) == Ok::<(Seq<FieldView>, int), RszErrorView>(
                                    (fields_view(fields@), self.offset()),
                                ));
                            }
                        }
                        Ok(DecodedValue::Flatten(fields))
                    },
                    Err(e) => {
                        proof {
                            old(self).lemma_evolves_trans(&mid, self);
                            assert(mid.busy() =~= old(self).busy());
                        }
                        Err(e)
                    },
                }
            },
            FieldType::Child => {
                let index = match self.cursor.read_u32() {
                    Ok(c) => c,
                    Err(e) => {
                        return Err(e);
                    },
                };
                let ghost mid = *self;
                match self.child(index) {
                    Ok(object) => {
                        proof {
                            old(self).lemma_evolves_trans(&mid, self);
                            assert forall|a: Set<int>| a.subset_of(self.open_slots()) implies #[trigger]
                                field_model(input, a, *ty, start, version) == Ok::<
                                (ValueView, int),
                                RszErrorView,
                            >((ValueView::Child(object_view(*object)), self.offset())) by {
                                assert(child_model(input, a, index as int) == Ok::<
                                    ObjectView,
                                    RszErrorView,
                                >(object_view(*object)));
                            }
                        }
                        Ok(DecodedValue::Child(object))
                    },
                    Err(e) => {
                        proof {
                            old(self).lemma_evolves_trans(&mid, self);
                            assert(mid.busy() =~= old(self).busy());
                        }
                        Err(e)
                    },
                }
            },
            FieldType::Shared => {
                let index = match self.cursor.read_u32() {
                    Ok(c) => c,
                    Err(e) => {
                        return Err(e);
                    },
                };
                let ghost mid = *self;
                match self.child(index) {
                    Ok(object) => {
                        proof {
                            old(self).lemma_evolves_trans(&mid, self);
                            assert forall|a: Set<int>| a.subset_of(self.open_slots()) implies #[trigger]
                                field_model(input, a, *ty, start, version) == Ok::<
                                (ValueView, int),
                                RszErrorView,
                            >((ValueView::Shared(object_view(*object)), self.offset())) by {
                                assert(child_model(input, a, index as int) == Ok::<
                                    ObjectView,
                                    RszErrorView,
                                >(object_view(*object)));
                            }
                        }
                        Ok(DecodedValue::Shared(object))
                    },
                    Err(e) => {
                        proof {
                            old(self).lemma_evolves_trans(&mid, self);
                            assert(mid.busy() =~= old(self).busy());
                        }
                        Err(e)
                    },
                }
            },
            _ => {
                assert(ty.is_leaf());
                match decode_leaf(&mut self.cursor, ty) {
                    Ok(v) => {
                        proof {
                            assert(leaf_model(input.bytes, *ty, start) == Ok::<
                                (ValueView, int),
                                ErrorKindView,
                            >((v@, self.offset())));
                            assert forall|a: Set<int>| a.subset_of(self.open_slots()) implies #[trigger]
                                field_model(input, a, *ty, start, version) == Ok::<
                                (ValueView, int),
                                RszErrorView,
                            >((v@, self.offset())) by {}
                        }
                        Ok(v)
                    },
                    Err(e) => Err(e),
                }
            },
        }
    }

    /// Decodes `count` elements of layout `elem` in a row.
    fn elements(&mut self, elem: &FieldType, count: u32, version: u32) -> (r: Result<
        Vec<DecodedValue>,
        RszError,
    >)
        requires
            old(self).wf(),
        ensures
            final(self).wf(),
            old(self).evolves(final(self)),
            match r {
                Ok(items) => forall|a: Set<int>|
                    a.subset_of(final(self).open_slots()) ==> #[trigger] elements_model(
                        old(self).input(),
                        a,
                        *elem,
                        old(self).offset(),
                        version,
                        count as nat,
                    ) == Ok::<(Seq<ValueView>, int), RszErrorView>(
                        (values_view(items@), final(self).offset()),
                    ),
                Err(e) => elements_model(
                    old(self).input(),
                    old(self).busy(),
                    *elem,
                    old(self).offset(),
                    version,
                    count as nat,
                ) == Err::<(Seq<ValueView>, int), RszErrorView>(e@),
            },
        decreases old(self).pending(), 1int, elem, 1int,
    {
        let ghost input = self.input();
        let ghost first = self.offset();
        let mut items: Vec<DecodedValue> = Vec::new();
        let mut i: u32 = 0;
        proof {
            assert forall|a: Set<int>| #[trigger]
                elements_model(input, a, *elem, first, version, count as nat) == after_values(
                    values_view(items@),
                    elements_model(input, a, *elem, self.offset(), version, (count - i) as nat),
                ) by {
                match elements_model(input, a, *elem, first, version, count as nat) {
                    Ok((more, end)) => {
                        assert(values_view(items@) + more =~= more);
                    },
                    Err(_) => {},
                }
            }
        }
        while i < count
            invariant
                i <= count,
                self.wf(),
                old(self).wf(),
                old(self).evolves(self),
                input == old(self).input(),
                first == old(self).offset(),
                forall|a: Set<int>|
                    a.subset_of(self.open_slots()) ==> #[trigger] elements_model(
                        input,
                        a,
                        *elem,
                        first,
                        version,
                        count as nat,
                    ) == after_values(
                        values_view(items@),
                        elements_model(input, a, *elem, self.offset(), version, (count - i) as nat),
                    ),
            decreases count - i,
        {
            let ghost before = *self;
            let ghost done = values_view(items@);
            proof {
                old(self).lemma_evolves(&before);
            }
            match self.field(elem, version) {
                Ok(v) => {
                    items.push(v);
                    proof {
                        old(self).lemma_evolves_trans(&before, self);
                        before.lemma_evolves(self);
                        assert(values_view(items@) =~= done.push(v@));
                        assert forall|a: Set<int>| a.subset_of(self.open_slots()) implies #[trigger]
                            elements_model(input, a, *elem, first, version, count as nat)
                            == after_values(
                            values_view(items@),
                            elements_model(
                                input,
                                a,
                                *elem,
                                self.offset(),
                                version,
                                (count - i - 1) as nat,
                            ),
                        ) by {
                            assert(a.subset_of(before.open_slots()));
                            assert(field_model(input, a, *elem, before.offset(), version) == Ok::<
                                (ValueView, int),
                                RszErrorView,
                            >((v@, self.offset())));
                            match elements_model(
                                input,
                                a,
                                *elem,
                                self.offset(),
                                version,
                                (count - i - 1) as nat,
                            ) {
                                Ok((more, end)) => {
                                    assert(done.push(v@) + more =~= done + (seq![v@] + more));
                                },
                                Err(_) => {},
                            }
                        }
                    }
                },
                Err(e) => {
                    proof {
                        old(self).lemma_evolves_trans(&before, self);
                        let a = old(self).busy();
                        assert(a.subset_of(before.open_slots())) by {
                            before.lemma_evolves(&before);
                        }
                    }
                    return Err(e);
                },
            }
            i += 1;
        }
        proof {
            assert forall|a: Set<int>| a.subset_of(self.open_slots()) implies #[trigger]
                elements_model(input, a, *elem, first, version, count as nat) == Ok::<
                (Seq<ValueView>, int),
                RszErrorView,
            >((values_view(items@), self.offset())) by {
                assert(values_view(items@) + Seq::<ValueView>::empty() =~= values_view(items@));
            }
        }
        Ok(items)
    }

    /// Decodes the fields of a structure in declaration order.
    fn fields(&mut self, plan: &Vec<FieldPlan>, version: u32) -> (r: Result<
        Vec<DecodedField>,
        RszError,
    >)
        requires
            old(self).wf(),
        ensures
            final(self).wf(),
            old(self).evolves(final(self)),
            match r {
                Ok(fields) => forall|a: Set<int>|
                    a.subset_of(final(self).open_slots()) ==> #[trigger] fields_model(
                        old(self).input(),
                        a,
                        plan@,
                        0,
                        old(self).offset(),
                        version,
                    ) == Ok::<(Seq<FieldView>, int), RszErrorView>(
                        (fields_view(fields@), final(self).offset()),
                    ),
                Err(e) => fields_model(
                    old(self).input(),
                    old(self).busy(),
                    plan@,
                    0,
                    old(self).offset(),
                    version,
                ) == Err::<(Seq<FieldView>, int), RszErrorView>(e@),
            },
        decreases old(self).pending(), 1int, plan, 1int,
    {
        let ghost input = self.input();
        let ghost first = self.offset();
        let mut fields: Vec<DecodedField> = Vec::new();
        let mut i: usize = 0;
        proof {
            assert forall|a: Set<int>| #[trigger]
                fields_model(input, a, plan@, 0, first, version) == after_fields(
                    fields_view(fields@),
                    fields_model(input, a, plan@, i as int, self.offset(), version),
                ) by {
                match fields_model(input, a, plan@, 0, first, version) {
                    Ok((more, end)) => {
                        assert(fields_view(fields@) + more =~= more);
                    },
                    Err(_) => {},
                }
            }
        }
        while i < plan.len()
            invariant
                i <= plan.len(),
                self.wf(),
                old(self).wf(),
                old(self).evolves(self),
                input == old(self).input(),
                first == old(self).offset(),
                forall|a: Set<int>|
                    a.subset_of(self.open_slots()) ==> #[trigger] fields_model(
                        input,
                        a,
                        plan@,
                        0,
                        first,
                        version,
                    ) == after_fields(
                        fields_view(fields@),
                        fields_model(input, a, plan@, i as int, self.offset(), version),
                    ),
            decreases plan.len() - i,
        {
            let ghost before = *self;
            let ghost done = fields_view(fields@);
            proof {
                old(self).lemma_evolves(&before);
            }
            match self.field(&plan[i].ty, version) {
                Ok(v) => {
                    let name = plan[i].name.clone();
                    let ghost fv = FieldView { name: name@, value: v@ };
                    fields.push(DecodedField { name, value: v });
                    proof {
                        old(self).lemma_evolves_trans(&before, self);
                        before.lemma_evolves(self);
                        assert(fields_view(fields@) =~= done.push(fv));
                        assert forall|a: Set<int>| a.subset_of(self.open_slots()) implies #[trigger]
                            fields_model(input, a, plan@, 0, first, version) == after_fields(
                            fields_view(fields@),
                            fields_model(input, a, plan@, i + 1, self.offset(), version),
                        ) by {
                            assert(a.subset_of(before.open_slots()));
                            assert(field_model(input, a, plan@[i as int].ty, before.offset(), version)
                                == Ok::<(ValueView, int), RszErrorView>((v@, self.offset())));
                            match fields_model(input, a, plan@, i + 1, self.offset(), version) {
                                Ok((more, end)) => {
                                    assert(done.push(fv) + more =~= done + (seq![fv] + more));
                                },
                                Err(_) => {},
                            }
                        }
                    }
                },
                Err(e) => {
                    proof {
                        old(self).lemma_evolves_trans(&before, self);
                        let a = old(self).busy();
                        assert(a.subset_of(before.open_slots())) by {
                            before.lemma_evolves(&before);
                        }
                    }
                    return Err(e.context(plan[i].name.as_str()));
                },
            }
            i += 1;
        }
        proof {
            assert forall|a: Set<int>| a.subset_of(self.open_slots()) implies #[trigger]
                fields_model(input, a, plan@, 0, first, version) == Ok::<
                (Seq<FieldView>, int),
                RszErrorView,
            >((fields_view(fields@), self.offset())) by {
                assert(fields_view(fields@) + Seq::<FieldView>::empty() =~= fields_view(fields@));
            }
        }
        Ok(fields)
    }

    /// Resolves the child object that index `index` refers to: the cached
    /// object where there is one, a fresh decode otherwise.
    fn child(&mut self, index: u32) -> (r: Result<Rc<DecodedObject>, RszError>)
        requires
            old(self).wf(),
        ensures
            final(self).wf(),
            old(self).evolves(final(self)),
            final(self).offset() == old(self).offset(),
            match r {
                Ok(object) => final(self).cached(index as int) == Some(*object) && forall|
                    a: Set<int>,
                |
                    a.subset_of(final(self).open_slots()) ==> #[trigger] child_model(
                        old(self).input(),
                        a,
                        index as int,
                    ) == Ok::<ObjectView, RszErrorView>(object_view(*object)),
                Err(e) => child_model(old(self).input(), old(self).busy(), index as int) == Err::<
                    ObjectView,
                    RszErrorView,
                >(e@),
            },
            old(self).cached(index as int) matches Some(o) ==> r matches Ok(object) && *object == o
                && *final(self) == *old(self),
            old(self).cached(index as int) is None && r is Ok ==> final(self).decodes() > old(
                self,
            ).decodes() || final(self).decodes() == u64::MAX,
        decreases old(self).pending(), 0int,
    {
        let i = index as usize;
        if i >= self.slots.len() {
            return Err(RszError::new(ErrorKind::UnknownChild { index }));
        }
        match &self.slots[i] {
            Slot::Resolved(object) => {
                return Ok(share(object));
            },
            Slot::Active => {
                return Err(RszError::new(ErrorKind::ChildCycle { index }));
            },
            Slot::Pending => {},
        }
        let symbol = self.children[i].symbol.clone();
        let hash = self.children[i].hash;
        let offset = self.children[i].offset;
        let ghost s0 = *self;
        self.slots.set(i, Slot::Active);
        if self.decodes < u64::MAX {
            self.decodes = self.decodes + 1;
        }
        let ghost s1 = *self;
        proof {
            lemma_pending_update(s0.slots@, i as int, Slot::Active);
            assert(s1.open_slots() =~= s0.open_slots());
            assert(s1.busy() =~= s0.busy().insert(i as int));
            assert(s1.wf());
        }
        match self.object(&symbol, hash, offset) {
            Ok(object) => {
                let ghost s2 = *self;
                let shared = Rc::new(object);
                self.slots.set(i, Slot::Resolved(share(&shared)));
                proof {
                    assert(self.open_slots() =~= s2.open_slots().remove(i as int));
                    assert forall|a: Set<int>| a.subset_of(self.open_slots()) implies #[trigger]
                        child_model(s0.input(), a, index as int) == Ok::<ObjectView, RszErrorView>(
                        object_view(*shared),
                    ) by {
                        assert(a.insert(i as int).subset_of(s2.open_slots()));
                        assert(object_model(
                            s0.input(),
                            a.insert(i as int),
                            symbol@,
                            hash,
                            offset as int,
                        ) == Ok::<ObjectView, RszErrorView>(object_view(*shared)));
                    }
                    assert forall|k: int, a: Set<int>|
                        0 <= k < self.slots@.len() && self.slots@[k] is Resolved && a.subset_of(
                            self.open_slots(),
                        ) implies #[trigger] child_model(self.input(), a, k) == Ok::<
                        ObjectView,
                        RszErrorView,
                    >(object_view(*self.slots@[k]->Resolved_0)) by {
                        if k != i {
                            assert(s2.slots@[k] is Resolved);
                            assert(a.subset_of(s2.open_slots()));
                        }
                    }
                }
                Ok(shared)
            },
            Err(e) => {
                let ghost s2 = *self;
                self.slots.set(i, Slot::Pending);
                proof {
                    assert(self.open_slots() =~= s2.open_slots());
                    assert(self.wf());
                }
                Err(e)
            },
        }
    }

    /// Decodes the object of type `symbol` whose bytes start at `offset`,
    /// and puts the cursor back where it was.
    fn object(&mut self, symbol: &String, hash: u32, offset: usize) -> (r: Result<
        DecodedObject,
        RszError,
    >)
        requires
            old(self).wf(),
        ensures
            final(self).wf(),
            old(self).evolves(final(self)),
            final(self).offset() == old(self).offset(),
            match r {
                Ok(object) => forall|a: Set<int>|
                    a.subset_of(final(self).open_slots()) ==> #[trigger] object_model(
                        old(self).input(),
                        a,
                        symbol@,
                        hash,
                        offset as int,
                    ) == Ok::<ObjectView, RszErrorView>(object_view(object)),
                Err(e) => object_model(
                    old(self).input(),
                    old(self).busy(),
                    symbol@,
                    hash,
                    offset as int,
                ) == Err::<ObjectView, RszErrorView>(e@),
            },
        decreases old(self).pending(), 2int,
    {
        let catalog: &'a Vec<TypeDescriptor> = self.catalog;
        let ghost input = self.input();
        let (descriptor, version) = match resolve_plan(catalog, symbol, hash) {
            Ok(found) => found,
            Err(e) => {
                return Err(e);
            },
        };
        let back = self.cursor.position();
        match self.cursor.seek(offset) {
            Ok(_) => {},
            Err(e) => {
                return Err(e);
            },
        }
        let ghost mid = *self;
        assert(old(self).evolves(&mid));
        assert(mid.wf());
        let outcome = self.fields(&catalog[descriptor].fields, version);
        let ghost after = *self;
        let restored = self.cursor.seek(back);
        proof {
            assert(restored is Ok);
            assert(after.evolves(self));
            assert(self.open_slots() =~= after.open_slots());
            old(self).lemma_evolves_trans(&mid, &after);
            old(self).lemma_evolves_trans(&after, self);
            assert(mid.busy() =~= old(self).busy());
            assert(self.wf());
        }
        match outcome {
            Ok(fields) => {
                let object = DecodedObject { symbol: symbol.clone(), version, fields };
                proof {
                    assert forall|a: Set<int>| a.subset_of(self.open_slots()) implies #[trigger]
                        object_model(input, a, symbol@, hash, offset as int) == Ok::<
                        ObjectView,
                        RszErrorView,
                    >(object_view(object)) by {
                        assert(fields_model(
                            input,
                            a,
                            catalog@[descriptor as int].fields@,
                            0,
                            offset as int,
                            version,
                        ) == Ok::<(Seq<FieldView>, int), RszErrorView>(
                            (fields_view(object.fields@), after.offset()),
                        ));
                    }
                }
                Ok(object)
            },
            Err(e) => Err(e),
        }
    }
}

} // verus!
