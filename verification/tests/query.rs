use flecs_core::error::ErrorKind;
use flecs_core::iteration::{
    flecs_filter_build, flecs_filter_create, flecs_filter_with, flecs_filter_with_or,
    flecs_filter_without, flecs_query_build, flecs_query_create, flecs_query_with,
    flecs_query_with_or, flecs_query_without,
};
use flecs_core::query::{contains_id, Operator, Query, QueryBuilder, QueryTerm, MAX_TERMS};

fn query_of(terms: &[(u64, Operator)]) -> Query {
    let mut b = QueryBuilder::new();
    for (id, oper) in terms {
        b.with(&[*id], *oper).unwrap();
    }
    b.build()
}

#[test]
fn every_call_returns_the_sum_of_the_ids_given_so_far() {
    let mut b = flecs_query_create();
    assert_eq!(b.free_index(), 0);
    assert_eq!(flecs_query_with(&mut b, &[10, 11]), Ok(2));
    assert_eq!(flecs_query_without(&mut b, &[12]), Ok(3));
    assert_eq!(flecs_query_with_or(&mut b, &[13, 14, 15]), Ok(6));
    assert_eq!(flecs_query_with(&mut b, &[]), Ok(6));
    assert_eq!(b.with(&[16], Operator::Optional), Ok(7));
    assert_eq!(b.free_index(), 7);
    let q = flecs_query_build(b);
    assert_eq!(q.len(), 7);
    assert_eq!(q.term(0), Some(QueryTerm { id: 10, oper: Operator::And }));
    assert_eq!(q.term(1), Some(QueryTerm { id: 11, oper: Operator::And }));
    assert_eq!(q.term(2), Some(QueryTerm { id: 12, oper: Operator::Not }));
    assert_eq!(q.term(3), Some(QueryTerm { id: 13, oper: Operator::Or }));
    assert_eq!(q.term(5), Some(QueryTerm { id: 15, oper: Operator::Or }));
    assert_eq!(q.term(6), Some(QueryTerm { id: 16, oper: Operator::Optional }));
    assert_eq!(q.term(7), None);
}

#[test]
fn sixteen_terms_fit_and_the_seventeenth_does_not() {
    let mut b = flecs_query_create();
    let ids: Vec<u64> = (1..=MAX_TERMS as u64).collect();
    assert_eq!(flecs_query_with(&mut b, &ids), Ok(16));
    assert_eq!(flecs_query_with(&mut b, &[99]), Err(ErrorKind::TooManyTerms));
    assert_eq!(flecs_query_without(&mut b, &[99]), Err(ErrorKind::TooManyTerms));
    assert_eq!(flecs_query_with_or(&mut b, &[99]), Err(ErrorKind::TooManyTerms));
    assert_eq!(b.free_index(), 16);
    let q = flecs_query_build(b);
    assert_eq!(q.len(), 16);
    assert_eq!(q.term(15), Some(QueryTerm { id: 16, oper: Operator::And }));
}

#[test]
fn a_call_that_does_not_fit_appends_nothing() {
    let mut b = flecs_query_create();
    assert_eq!(flecs_query_with(&mut b, &[1, 2, 3]), Ok(3));
    let many: Vec<u64> = (0..14).collect();
    assert_eq!(flecs_query_with(&mut b, &many), Err(ErrorKind::TooManyTerms));
    assert_eq!(b.free_index(), 3);
    let fits: Vec<u64> = (0..13).collect();
    assert_eq!(flecs_query_with(&mut b, &fits), Ok(16));
}

#[test]
fn filters_are_built_like_queries() {
    let mut b = flecs_filter_create();
    assert_eq!(flecs_filter_with(&mut b, &[1]), Ok(1));
    assert_eq!(flecs_filter_without(&mut b, &[2]), Ok(2));
    assert_eq!(flecs_filter_with_or(&mut b, &[3, 4]), Ok(4));
    let many: Vec<u64> = (0..13).collect();
    assert_eq!(flecs_filter_with(&mut b, &many), Err(ErrorKind::TooManyTerms));
    let f = flecs_filter_build(b);
    assert_eq!(f.len(), 4);
    assert_eq!(f.term(1), Some(QueryTerm { id: 2, oper: Operator::Not }));
    assert!(f.matches(&[1, 4]));
    assert!(!f.matches(&[1, 2, 4]));
}

#[test]
fn and_not_rejects_entities_missing_a_or_having_b() {
    let q = query_of(&[(1, Operator::And), (2, Operator::Not)]);
    assert!(q.matches(&[1]));
    assert!(q.matches(&[3, 1]));
    assert!(!q.matches(&[]));
    assert!(!q.matches(&[3]));
    assert!(!q.matches(&[1, 2]));
    assert!(!q.matches(&[2]));
}

#[test]
fn an_empty_query_matches_everything() {
    let q = flecs_query_build(flecs_query_create());
    assert_eq!(q.len(), 0);
    assert!(q.matches(&[]));
    assert!(q.matches(&[1, 2, 3]));
}

#[test]
fn optional_terms_constrain_nothing() {
    let q = query_of(&[(1, Operator::And), (2, Operator::Optional)]);
    assert!(q.matches(&[1]));
    assert!(q.matches(&[1, 2]));
    assert!(!q.matches(&[2]));
}

#[test]
fn a_run_of_or_terms_needs_one_of_its_ids() {
    let q = query_of(&[(1, Operator::Or), (2, Operator::Or), (3, Operator::Or)]);
    assert!(q.matches(&[1]));
    assert!(q.matches(&[2]));
    assert!(q.matches(&[3, 9]));
    assert!(!q.matches(&[]));
    assert!(!q.matches(&[9]));
}

#[test]
fn runs_of_or_terms_are_told_apart_by_what_separates_them() {
    // (1 or 2) and 5 and (3 or 4)
    let q = query_of(&[
        (1, Operator::Or),
        (2, Operator::Or),
        (5, Operator::And),
        (3, Operator::Or),
        (4, Operator::Or),
    ]);
    assert!(q.matches(&[1, 5, 3]));
    assert!(q.matches(&[2, 5, 4]));
    assert!(!q.matches(&[1, 2, 5]));
    assert!(!q.matches(&[5, 3, 4]));
    assert!(!q.matches(&[1, 3]));
}

#[test]
fn a_single_or_term_behaves_like_and() {
    let q = query_of(&[(7, Operator::Or), (8, Operator::Not)]);
    assert!(q.matches(&[7]));
    assert!(!q.matches(&[]));
    assert!(!q.matches(&[7, 8]));
}

#[test]
fn membership_in_a_list_of_ids() {
    assert!(contains_id(&[3, 1, 2], 2));
    assert!(!contains_id(&[3, 1, 2], 4));
    assert!(!contains_id(&[], 0));
}
