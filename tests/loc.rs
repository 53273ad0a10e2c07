use arith::{Annot, Loc};

#[test]
fn merge_covers_both_spans() {
    assert_eq!(Loc(0, 2).merge(&Loc(4, 7)), Loc(0, 7));
    assert_eq!(Loc(4, 7).merge(&Loc(0, 2)), Loc(0, 7));
    assert_eq!(Loc(1, 9).merge(&Loc(3, 4)), Loc(1, 9));
}

#[test]
fn merge_is_commutative_and_idempotent() {
    let a = Loc(3, 8);
    let b = Loc(5, 12);
    assert_eq!(a.merge(&b), b.merge(&a));
    assert_eq!(a.merge(&a), a);
}

#[test]
fn annot_pairs_value_and_span() {
    let a = Annot::new('x', Loc(1, 2));
    assert_eq!(a.value, 'x');
    assert_eq!(a.loc, Loc(1, 2));
}
