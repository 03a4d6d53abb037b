//! The iteration cursor: a uniform walk over whatever batches a storage
//! engine returned for a query.
//!
//! A batch holds the entities that matched together and, for every term of
//! the query, the base address and element stride of the array that holds
//! that term's records for the batch, so that the record of entity `i` is at
//! `base + i * stride`. A term whose record is absent has base 0, and every
//! element of its array is 0. A fresh cursor stands before the first batch.
//! `advance` moves to the next batch and says whether there is one; once it
//! has said no, the cursor is exhausted and advancing it again is an error.
use vstd::prelude::*;
use crate::error::ErrorKind;

verus! {

/// Where the records of one term lie for one batch.
#[derive(Clone, Copy, Debug, PartialEq, Eq, Structural)]
pub struct FieldArray {
    pub base: u64,
    pub stride: u32,
}

/// The address of element `i` of a field array: 0 for an absent array.
pub open spec fn element_address(array: FieldArray, i: int) -> int {
    if array.base == 0 {
        0
    } else {
        array.base + i * array.stride
    }
}

/// What asking for element `index` of `array` returns: its address, or
/// `OffsetOutOfBounds` when the address does not fit 64 bits.
pub open spec fn element_result(array: FieldArray, index: nat) -> Result<u64, ErrorKind> {
    if element_address(array, index as int) > u64::MAX {
        Err(ErrorKind::OffsetOutOfBounds)
    } else {
        Ok(element_address(array, index as int) as u64)
    }
}

/// One batch of matching entities with the field arrays of the query's terms.
#[derive(Debug, PartialEq, Eq)]
pub struct Batch {
    pub entities: Vec<u64>,
    pub columns: Vec<FieldArray>,
}

/// What a batch is, as a mathematical value.
pub struct BatchView {
    pub entities: Seq<u64>,
    pub columns: Seq<FieldArray>,
}

impl View for Batch {
    type V = BatchView;

    open spec fn view(&self) -> BatchView {
        BatchView { entities: self.entities@, columns: self.columns@ }
    }
}

/// The views of a list of batches.
pub open spec fn batch_views(batches: Seq<Batch>) -> Seq<BatchView> {
    Seq::new(batches.len(), |i: int| batches[i]@)
}

/// Every batch holds few enough entities for a 32-bit count.
pub open spec fn batches_fit(batches: Seq<BatchView>) -> bool {
    forall|i: int| 0 <= i < batches.len() ==> (#[trigger] batches[i]).entities.len() <= u32::MAX
}

/// What a cursor is, as a mathematical value: the batches, how many of them
/// it has moved onto, and whether it has reported the end.
pub struct CursorView {
    pub batches: Seq<BatchView>,
    pub position: nat,
    pub exhausted: bool,
}

impl CursorView {
    /// The cursor invariant.
    pub open spec fn wf(self) -> bool {
        &&& batches_fit(self.batches)
        &&& self.position <= self.batches.len()
        &&& self.exhausted ==> self.position == self.batches.len()
    }

    /// The batch the cursor stands on, if it stands on one.
    pub open spec fn current(self) -> Option<BatchView> {
        if !self.exhausted && self.position >= 1 {
            Some(self.batches[self.position - 1])
        } else {
            None
        }
    }

    /// The error of asking for something of the current batch when there is
    /// none: `CursorExhausted` after the end, `OffsetOutOfBounds` before the
    /// first advance.
    pub open spec fn no_batch_error(self) -> ErrorKind {
        if self.exhausted {
            ErrorKind::CursorExhausted
        } else {
            ErrorKind::OffsetOutOfBounds
        }
    }

    /// The number of entities in the current batch; 0 when there is none.
    pub open spec fn count(self) -> nat {
        match self.current() {
            Some(b) => b.entities.len(),
            None => 0,
        }
    }

    /// What `advance` returns.
    pub open spec fn advance_result(self) -> Result<bool, ErrorKind> {
        if self.exhausted {
            Err(ErrorKind::CursorExhausted)
        } else {
            Ok(self.position < self.batches.len())
        }
    }

    /// The cursor after `advance`.
    pub open spec fn advanced(self) -> CursorView {
        if self.exhausted {
            self
        } else if self.position < self.batches.len() {
            CursorView { position: self.position + 1, ..self }
        } else {
            CursorView { exhausted: true, ..self }
        }
    }

    /// What `entity_at` returns.
    pub open spec fn entity_at(self, index: nat) -> Result<u64, ErrorKind> {
        match self.current() {
            None => Err(self.no_batch_error()),
            Some(b) => if index < b.entities.len() {
                Ok(b.entities[index as int])
            } else {
                Err(ErrorKind::OffsetOutOfBounds)
            },
        }
    }

    /// What `field_array` returns.
    pub open spec fn field_array(self, term_index: nat) -> Result<FieldArray, ErrorKind> {
        match self.current() {
            None => Err(self.no_batch_error()),
            Some(b) => if term_index < b.columns.len() {
                Ok(b.columns[term_index as int])
            } else {
                Err(ErrorKind::OffsetOutOfBounds)
            },
        }
    }

    /// The base address of every term's array for the current batch, in term
    /// order; none when the cursor stands on no batch.
    pub open spec fn bases(self) -> Seq<u64> {
        match self.current() {
            Some(b) => Seq::new(b.columns.len(), |t: int| b.columns[t].base),
            None => Seq::empty(),
        }
    }

    /// What `field_list` returns: the address of every element of the term's
    /// array, in the batch's order, when all of them fit 64 bits.
    pub open spec fn field_list(self, term_index: nat) -> Result<Seq<u64>, ErrorKind> {
        match self.field_array(term_index) {
            Err(e) => Err(e),
            Ok(array) => if exists|i: int|
                0 <= i < self.count() && #[trigger] element_address(array, i) > u64::MAX {
                Err(ErrorKind::OffsetOutOfBounds)
            } else {
                Ok(Seq::new(self.count(), |i: int| element_address(array, i) as u64))
            },
        }
    }

    /// What `field_array_element` returns: `base + index * stride` of the
    /// term's array, for an index within the batch and an address within 64 bits.
    pub open spec fn field_array_element(self, term_index: nat, index: nat) -> Result<
        u64,
        ErrorKind,
    > {
        match self.field_array(term_index) {
            Err(e) => Err(e),
            Ok(array) => if index >= self.count() || element_address(array, index as int)
                > u64::MAX {
                Err(ErrorKind::OffsetOutOfBounds)
            } else {
                Ok(element_address(array, index as int) as u64)
            },
        }
    }
}

/// A cursor over the batches of one query result.
#[derive(Debug)]
pub struct Cursor {
    batches: Vec<Batch>,
    position: usize,
    exhausted: bool,
}

impl View for Cursor {
    type V = CursorView;

    closed spec fn view(&self) -> CursorView {
        CursorView {
            batches: batch_views(self.batches@),
            position: self.position as nat,
            exhausted: self.exhausted,
        }
    }
}

impl Cursor {
    /// The cursor invariant.
    pub open spec fn wf(&self) -> bool {
        self@.wf()
    }

    /// A cursor that stands before the first of `batches`, each of which is
    /// known to fit.
    pub(crate) fn over(batches: Vec<Batch>) -> (c: Cursor)
        requires
            batches_fit(batch_views(batches@)),
        ensures
            c.wf(),
            c@ == (CursorView { batches: batch_views(batches@), position: 0, exhausted: false }),
    {
        Cursor { batches, position: 0, exhausted: false }
    }

    /// Opens a cursor that stands before the first of `batches`. A batch with
    /// more entities than a 32-bit count can express is refused with
    /// `CapacityExceeded`.
    pub fn open(batches: Vec<Batch>) -> (r: Result<Cursor, ErrorKind>)
        ensures
            match r {
                Ok(c) => {
                    &&& batches_fit(batch_views(batches@))
                    &&& c.wf()
                    &&& c@ == (CursorView {
                        batches: batch_views(batches@),
                        position: 0,
                        exhausted: false,
                    })
                },
                Err(e) => e == ErrorKind::CapacityExceeded && !batches_fit(batch_views(batches@)),
            },
    {
        let ghost views = batch_views(batches@);
        let mut i: usize = 0;
        while i < batches.len()
            invariant
                i <= batches.len(),
                views == batch_views(batches@),
                forall|k: int| 0 <= k < i ==> (#[trigger] views[k]).entities.len() <= u32::MAX,
            decreases batches.len() - i,
        {
            if batches[i].entities.len() > u32::MAX as usize {
                assert(views[i as int].entities.len() > u32::MAX);
                return Err(ErrorKind::CapacityExceeded);
            }
            i += 1;
        }
        Ok(Cursor::over(batches))
    }

    /// Moves to the next batch. `Ok(true)` when the cursor now stands on a
    /// batch; `Ok(false)` when none was left, which exhausts the cursor;
    /// `CursorExhausted` when it was exhausted already.
    pub fn advance(&mut self) -> (r: Result<bool, ErrorKind>)
        requires
            old(self).wf(),
        ensures
            final(self).wf(),
            r == old(self)@.advance_result(),
            final(self)@ == old(self)@.advanced(),
    {
        if self.exhausted {
            return Err(ErrorKind::CursorExhausted);
        }
        if self.position < self.batches.len() {
            self.position = self.position + 1;
            Ok(true)
        } else {
            self.exhausted = true;
            Ok(false)
        }
    }

    /// The current batch, if the cursor stands on one.
    fn current(&self) -> (r: Option<&Batch>)
        requires
            self.wf(),
        ensures
            match r {
                Some(b) => self@.current() == Some(b@) && b@.entities.len() <= u32::MAX,
                None => self@.current() is None,
            },
    {
        if !self.exhausted && self.position >= 1 {
            let b = &self.batches[self.position - 1];
            assert(b@ == self@.batches[self.position - 1]);
            Some(b)
        } else {
            None
        }
    }

    /// The error for a request that needs a current batch when there is none.
    fn no_batch(&self) -> (e: ErrorKind)
        ensures
            e == self@.no_batch_error(),
    {
        if self.exhausted {
            ErrorKind::CursorExhausted
        } else {
            ErrorKind::OffsetOutOfBounds
        }
    }

    /// The number of entities in the current batch; 0 when the cursor stands
    /// on none.
    pub fn count(&self) -> (r: u32)
        requires
            self.wf(),
        ensures
            r == self@.count(),
    {
        match self.current() {
            Some(b) => b.entities.len() as u32,
            None => 0,
        }
    }

    /// The entity at place `index` of the current batch.
    pub fn entity_at(&self, index: u32) -> (r: Result<u64, ErrorKind>)
        requires
            self.wf(),
        ensures
            r == self@.entity_at(index as nat),
    {
        match self.current() {
            None => Err(self.no_batch()),
            Some(b) => if (index as usize) < b.entities.len() {
                Ok(b.entities[index as usize])
            } else {
                Err(ErrorKind::OffsetOutOfBounds)
            },
        }
    }

    /// The entities of the current batch, in order; none when the cursor
    /// stands on no batch.
    pub fn entities(&self) -> (r: Vec<u64>)
        requires
            self.wf(),
        ensures
            r@ == match self@.current() {
                Some(b) => b.entities,
                None => Seq::<u64>::empty(),
            },
    {
        let mut out: Vec<u64> = Vec::new();
        match self.current() {
            None => {},
            Some(b) => {
                let mut i: usize = 0;
                while i < b.entities.len()
                    invariant
                        i <= b.entities.len(),
                        out@ == b.entities@.take(i as int),
                    decreases b.entities.len() - i,
                {
                    proof {
                        assert(b.entities@.take(i + 1) =~= b.entities@.take(i as int).push(
                            b.entities@[i as int],
                        ));
                    }
                    out.push(b.entities[i]);
                    i += 1;
                }
                assert(b.entities@.take(b.entities.len() as int) =~= b.entities@);
            },
        }
        out
    }

    /// The base address of every term's array for the current batch, in term
    /// order; none when the cursor stands on no batch.
    pub fn bases(&self) -> (r: Vec<u64>)
        requires
            self.wf(),
        ensures
            r@ == self@.bases(),
    {
        let mut out: Vec<u64> = Vec::new();
        match self.current() {
            None => {},
            Some(b) => {
                let mut t: usize = 0;
                while t < b.columns.len()
                    invariant
                        t <= b.columns.len(),
                        out@.len() == t,
                        forall|k: int| 0 <= k < t ==> out@[k] == b.columns@[k].base,
                    decreases b.columns.len() - t,
                {
                    out.push(b.columns[t].base);
                    t += 1;
                }
            },
        }
        assert(out@ =~= self@.bases());
        out
    }

    /// The base address and element stride of the array that holds the
    /// records of term `term_index` for the current batch.
    pub fn field_array(&self, term_index: u32) -> (r: Result<FieldArray, ErrorKind>)
        requires
            self.wf(),
        ensures
            r == self@.field_array(term_index as nat),
    {
        match self.current() {
            None => Err(self.no_batch()),
            Some(b) => if (term_index as usize) < b.columns.len() {
                Ok(b.columns[term_index as usize])
            } else {
                Err(ErrorKind::OffsetOutOfBounds)
            },
        }
    }

    /// The address of the record of term `term_index` for the entity at place
    /// `index` of the current batch.
    pub fn field_array_element(&self, term_index: u32, index: u32) -> (r: Result<u64, ErrorKind>)
        requires
            self.wf(),
        ensures
            r == self@.field_array_element(term_index as nat, index as nat),
    {
        let array: FieldArray = match self.field_array(term_index) {
            Ok(a) => a,
            Err(e) => {
                return Err(e);
            },
        };
        if index >= self.count() {
            return Err(ErrorKind::OffsetOutOfBounds);
        }
        element_of(array, index)
    }

    /// The addresses of the records of term `term_index` for every entity of
    /// the current batch, in the batch's order.
    #[verifier::rlimit(40)]
    pub fn field_list(&self, term_index: u32) -> (r: Result<Vec<u64>, ErrorKind>)
        requires
            self.wf(),
        ensures
            match self@.field_list(term_index as nat) {
                Ok(s) => r matches Ok(v) && v@ == s,
                Err(e) => r matches Err(e2) && e2 == e,
            },
    {
        let array: FieldArray = match self.field_array(term_index) {
            Ok(a) => a,
            Err(e) => {
                return Err(e);
            },
        };
        let n: u32 = self.count();
        let mut out: Vec<u64> = Vec::new();
        let mut i: u32 = 0;
        while i < n
            invariant
                i <= n,
                n == self@.count(),
                self@.field_array(term_index as nat) == Ok::<FieldArray, ErrorKind>(array),
                out@.len() == i,
                forall|k: int|
                    0 <= k < i ==> #[trigger] element_address(array, k) <= u64::MAX && out@[k]
                        == element_address(array, k),
            decreases n - i,
        {
            match element_of(array, i) {
                Ok(a) => {
                    out.push(a);
                },
                Err(e) => {
                    assert(element_address(array, i as int) > u64::MAX);
                    return Err(e);
                },
            }
            i += 1;
        }
        assert(out@ =~= Seq::new(self@.count(), |i: int| element_address(array, i) as u64));
        Ok(out)
    }
}

/// The address of element `index` of `array`; `OffsetOutOfBounds` when it
/// does not fit 64 bits.
pub fn element_of(array: FieldArray, index: u32) -> (r: Result<u64, ErrorKind>)
    ensures
        r == element_result(array, index as nat),
{
    if array.base == 0 {
        return Ok(0);
    }
    assert(index * array.stride <= 0xFFFF_FFFF * 0xFFFF_FFFF) by (nonlinear_arith)
        requires
            0 <= index <= 0xFFFF_FFFF,
            0 <= array.stride <= 0xFFFF_FFFF,
    ;
    let step: u64 = index as u64 * array.stride as u64;
    if step > u64::MAX - array.base {
        Err(ErrorKind::OffsetOutOfBounds)
    } else {
        Ok(array.base + step)
    }
}

/// A cursor over `n` batches answers `advance` with `true` exactly `n` times,
/// then with `false` once, and from then on with `CursorExhausted`.
pub proof fn law_advance_sequence(c: CursorView)
    requires
        c.wf(),
    ensures
        c.advanced().wf(),
        !c.exhausted && c.position < c.batches.len() ==> c.advance_result() == Ok::<
            bool,
            ErrorKind,
        >(true) && c.advanced().position == c.position + 1 && c.advanced().current() == Some(
            c.batches[c.position as int],
        ),
        !c.exhausted && c.position == c.batches.len() ==> c.advance_result() == Ok::<
            bool,
            ErrorKind,
        >(false) && c.advanced().exhausted,
        c.exhausted ==> c.advance_result() == Err::<bool, ErrorKind>(ErrorKind::CursorExhausted)
            && c.advanced() == c,
{
}

} // verus!
