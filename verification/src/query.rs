//! Queries: ordered lists of terms that select entities by the record types
//! they carry.
//!
//! A builder starts empty, grows by appending terms, and is consumed by
//! `build`, after which the query cannot change. Every term names a type id
//! and an operator. An entity matches when every term holds of the set of ids
//! attached to it: an `And` term when its id is attached, a `Not` term when it
//! is not, an `Optional` term always, and an `Or` term when at least one id of
//! its run is attached, a run being a maximal stretch of neighbouring `Or`
//! terms. A query without terms constrains nothing.
use vstd::prelude::*;
use crate::error::ErrorKind;

verus! {

/// The most terms a query can hold.
pub const MAX_TERMS: usize = 16;

/// How a term constrains the entities that match.
#[derive(Clone, Copy, Debug, PartialEq, Eq, Structural)]
pub enum Operator {
    And,
    Or,
    Not,
    Optional,
}

/// One clause of a query.
#[derive(Clone, Copy, Debug, PartialEq, Eq, Structural)]
pub struct QueryTerm {
    pub id: u64,
    pub oper: Operator,
}

/// The terms that one call appends: one per id, in order, all with `oper`.
pub open spec fn batch_terms(ids: Seq<u64>, oper: Operator) -> Seq<QueryTerm> {
    Seq::new(ids.len(), |i: int| QueryTerm { id: ids[i], oper })
}

/// True if terms `i` and `k` lie in one run of `Or` terms: every term from the
/// one to the other is an `Or` term.
pub open spec fn same_run(terms: Seq<QueryTerm>, i: int, k: int) -> bool {
    &&& 0 <= i < terms.len()
    &&& 0 <= k < terms.len()
    &&& forall|j: int| (i <= j <= k || k <= j <= i) ==> (#[trigger] terms[j]).oper == Operator::Or
}

/// True if term `i` holds of an entity that carries exactly the ids in `attached`.
pub open spec fn term_holds(terms: Seq<QueryTerm>, attached: Set<u64>, i: int) -> bool {
    match terms[i].oper {
        Operator::And => attached.contains(terms[i].id),
        Operator::Not => !attached.contains(terms[i].id),
        Operator::Optional => true,
        Operator::Or => exists|k: int| same_run(terms, i, k) && attached.contains(#[trigger] terms[k].id),
    }
}

/// True if an entity that carries exactly the ids in `attached` matches the query.
pub open spec fn spec_matches(terms: Seq<QueryTerm>, attached: Set<u64>) -> bool {
    forall|i: int| 0 <= i < terms.len() ==> term_holds(terms, attached, i)
}

/// True if `id` is among `ids`.
pub fn contains_id(ids: &[u64], id: u64) -> (r: bool)
    ensures
        r == ids@.contains(id),
{
    let mut i: usize = 0;
    while i < ids.len()
        invariant
            i <= ids.len(),
            forall|k: int| 0 <= k < i ==> ids@[k] != id,
        decreases ids.len() - i,
    {
        if ids[i] == id {
            return true;
        }
        i += 1;
    }
    false
}

/// A query under construction.
pub struct QueryBuilder {
    terms: Vec<QueryTerm>,
}

impl View for QueryBuilder {
    type V = Seq<QueryTerm>;

    closed spec fn view(&self) -> Seq<QueryTerm> {
        self.terms@
    }
}

/// A built query: an immutable, ordered list of at most `MAX_TERMS` terms.
pub struct Query {
    terms: Vec<QueryTerm>,
}

impl View for Query {
    type V = Seq<QueryTerm>;

    closed spec fn view(&self) -> Seq<QueryTerm> {
        self.terms@
    }
}

impl QueryBuilder {
    /// The builder invariant: no more than `MAX_TERMS` terms.
    pub open spec fn wf(&self) -> bool {
        self@.len() <= MAX_TERMS
    }

    /// An empty builder. Its free index is 0.
    pub fn new() -> (r: QueryBuilder)
        ensures
            r@ == Seq::<QueryTerm>::empty(),
            r.wf(),
    {
        QueryBuilder { terms: Vec::new() }
    }

    /// The free index: the number of terms appended so far.
    pub fn free_index(&self) -> (r: u8)
        requires
            self.wf(),
        ensures
            r == self@.len(),
    {
        self.terms.len() as u8
    }

    /// Appends one term per id, in order, each with `oper`, at the free index,
    /// and returns the new free index. When the terms would not all fit, none
    /// is appended and the call fails with `TooManyTerms`.
    #[verifier::rlimit(40)]
    pub fn with(&mut self, ids: &[u64], oper: Operator) -> (r: Result<u8, ErrorKind>)
        requires
            old(self).wf(),
        ensures
            final(self).wf(),
            match r {
                Ok(next) => {
                    &&& old(self)@.len() + ids@.len() <= MAX_TERMS
                    &&& final(self)@ == old(self)@ + batch_terms(ids@, oper)
                    &&& next == old(self)@.len() + ids@.len()
                },
                Err(e) => {
                    &&& e == ErrorKind::TooManyTerms
                    &&& old(self)@.len() + ids@.len() > MAX_TERMS
                    &&& final(self)@ == old(self)@
                },
            },
    {
        if ids.len() > MAX_TERMS - self.terms.len() {
            return Err(ErrorKind::TooManyTerms);
        }
        let ghost before = self@;
        let mut i: usize = 0;
        while i < ids.len()
            invariant
                i <= ids.len(),
                before.len() + ids@.len() <= MAX_TERMS,
                self@ == before + batch_terms(ids@, oper).take(i as int),
            decreases ids.len() - i,
        {
            proof {
                let b = batch_terms(ids@, oper);
                assert(before + b.take(i + 1) =~= (before + b.take(i as int)).push(b[i as int]));
            }
            self.terms.push(QueryTerm { id: ids[i], oper });
            i += 1;
        }
        proof {
            let b = batch_terms(ids@, oper);
            assert(b.take(ids@.len() as int) =~= b);
        }
        Ok(self.terms.len() as u8)
    }

    /// Ends construction. The query holds the builder's terms, in order.
    pub fn build(self) -> (q: Query)
        requires
            self.wf(),
        ensures
            q@ == self@,
            q.wf(),
    {
        Query { terms: self.terms }
    }
}

impl Query {
    /// The query invariant: no more than `MAX_TERMS` terms.
    pub open spec fn wf(&self) -> bool {
        self@.len() <= MAX_TERMS
    }

    /// The number of terms.
    pub fn len(&self) -> (r: usize)
        ensures
            r == self@.len(),
    {
        self.terms.len()
    }

    /// The term at place `i`, if there is one.
    pub fn term(&self, i: usize) -> (r: Option<QueryTerm>)
        ensures
            r == if i < self@.len() {
                Some(self@[i as int])
            } else {
                None
            },
    {
        if i < self.terms.len() {
            Some(self.terms[i])
        } else {
            None
        }
    }

    /// True if an entity that carries exactly the ids in `attached` matches.
    #[verifier::rlimit(40)]
    pub fn matches(&self, attached: &[u64]) -> (r: bool)
        ensures
            r == spec_matches(self@, attached@.to_set()),
    {
        let ghost terms = self@;
        let ghost set = attached@.to_set();
        let n: usize = self.terms.len();
        let mut i: usize = 0;
        while i < n
            invariant
                i <= n,
                n == terms.len(),
                terms == self@,
                set == attached@.to_set(),
                forall|t: int| 0 <= t < i ==> term_holds(terms, set, t),
                i == 0 || i == n || !(terms[i - 1].oper == Operator::Or && terms[i as int].oper
                    == Operator::Or),
            decreases n - i,
        {
            let term = self.terms[i];
            match term.oper {
                Operator::And => {
                    if !contains_id(attached, term.id) {
                        assert(!term_holds(terms, set, i as int));
                        return false;
                    }
                    i += 1;
                },
                Operator::Not => {
                    if contains_id(attached, term.id) {
                        assert(!term_holds(terms, set, i as int));
                        return false;
                    }
                    i += 1;
                },
                Operator::Optional => {
                    i += 1;
                },
                Operator::Or => {
                    let mut hit: bool = false;
                    let mut j: usize = i;
                    while j < n && self.terms[j].oper == Operator::Or
                        invariant
                            i <= j <= n,
                            n == terms.len(),
                            terms == self@,
                            set == attached@.to_set(),
                            forall|k: int| i <= k < j ==> (#[trigger] terms[k]).oper == Operator::Or,
                            hit == exists|k: int| i <= k < j && set.contains(#[trigger] terms[k].id),
                        decreases n - j,
                    {
                        if contains_id(attached, self.terms[j].id) {
                            hit = true;
                        }
                        j += 1;
                    }
                    proof {
                        assert forall|t: int| i <= t < j implies (term_holds(terms, set, t)
                            <==> hit) by {
                            if hit {
                                let k = choose|k: int|
                                    i <= k < j && set.contains(#[trigger] terms[k].id);
                                assert(same_run(terms, t, k));
                            }
                            if term_holds(terms, set, t) {
                                let k = choose|k: int|
                                    same_run(terms, t, k) && set.contains(#[trigger] terms[k].id);
                                if k < i {
                                    assert(terms[i - 1].oper == Operator::Or);
                                    assert(terms[i as int].oper == Operator::Or);
                                }
                                if k >= j {
                                    assert(terms[j as int].oper == Operator::Or);
                                }
                            }
                        }
                    }
                    if !hit {
                        assert(!term_holds(terms, set, i as int));
                        return false;
                    }
                    i = j;
                },
            }
        }
        true
    }
}

/// The free index after a call of `with` is the free index before it plus the
/// number of ids given, and the terms before it stay where they were.
pub proof fn law_with_advances(terms: Seq<QueryTerm>, ids: Seq<u64>, oper: Operator)
    ensures
        (terms + batch_terms(ids, oper)).len() == terms.len() + ids.len(),
        forall|i: int| 0 <= i < terms.len() ==> (terms + batch_terms(ids, oper))[i] == terms[i],
        forall|i: int|
            0 <= i < ids.len() ==> (terms + batch_terms(ids, oper))[terms.len() + i] == (QueryTerm {
                id: ids[i],
                oper,
            }),
{
}

/// The terms that a series of calls of `with` appends to an empty builder.
pub open spec fn spec_with_all(calls: Seq<(Seq<u64>, Operator)>) -> Seq<QueryTerm>
    decreases calls.len(),
{
    if calls.len() == 0 {
        Seq::empty()
    } else {
        spec_with_all(calls.drop_last()) + batch_terms(calls.last().0, calls.last().1)
    }
}

/// The number of ids that a series of calls of `with` was given.
pub open spec fn total_ids(calls: Seq<(Seq<u64>, Operator)>) -> nat
    decreases calls.len(),
{
    if calls.len() == 0 {
        0
    } else {
        total_ids(calls.drop_last()) + calls.last().0.len()
    }
}

/// After any series of calls of `with` on an empty builder, the free index is
/// the sum of the numbers of ids given so far.
pub proof fn law_free_index_is_sum(calls: Seq<(Seq<u64>, Operator)>)
    ensures
        spec_with_all(calls).len() == total_ids(calls),
    decreases calls.len(),
{
    if calls.len() > 0 {
        law_free_index_is_sum(calls.drop_last());
    }
}

/// A query of the two terms `a: And, b: Not` matches exactly the entities that
/// carry `a` and do not carry `b`.
pub proof fn law_and_not(a: u64, b: u64, attached: Set<u64>)
    ensures
        spec_matches(
            seq![
                QueryTerm { id: a, oper: Operator::And },
                QueryTerm { id: b, oper: Operator::Not },
            ],
            attached,
        ) <==> (attached.contains(a) && !attached.contains(b)),
{
    let terms = seq![
        QueryTerm { id: a, oper: Operator::And },
        QueryTerm { id: b, oper: Operator::Not },
    ];
    if attached.contains(a) && !attached.contains(b) {
        assert forall|i: int| 0 <= i < terms.len() implies term_holds(terms, attached, i) by {
            if i == 0 {
            } else {
                assert(i == 1);
            }
        }
    }
    if spec_matches(terms, attached) {
        assert(term_holds(terms, attached, 0));
        assert(term_holds(terms, attached, 1));
    }
}

/// A query without terms matches every entity.
pub proof fn law_empty_matches_all(attached: Set<u64>)
    ensures
        spec_matches(Seq::<QueryTerm>::empty(), attached),
{
}

/// A run of `Or` terms holds exactly when at least one of its ids is attached.
pub proof fn law_or_run(ids: Seq<u64>, attached: Set<u64>)
    requires
        ids.len() > 0,
    ensures
        spec_matches(batch_terms(ids, Operator::Or), attached) <==> exists|k: int|
            0 <= k < ids.len() && attached.contains(#[trigger] ids[k]),
{
    let terms = batch_terms(ids, Operator::Or);
    if spec_matches(terms, attached) {
        assert(term_holds(terms, attached, 0));
        let k = choose|k: int| same_run(terms, 0, k) && attached.contains(#[trigger] terms[k].id);
        assert(attached.contains(ids[k]));
    }
    if exists|k: int| 0 <= k < ids.len() && attached.contains(#[trigger] ids[k]) {
        let k = choose|k: int| 0 <= k < ids.len() && attached.contains(#[trigger] ids[k]);
        assert forall|i: int| 0 <= i < terms.len() implies term_holds(terms, attached, i) by {
            assert(same_run(terms, i, k));
            assert(attached.contains(terms[k].id));
        }
    }
}

} // verus!
