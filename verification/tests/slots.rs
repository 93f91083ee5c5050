use taskcore::slots::{find_free, place, put_at};

#[test]
fn the_lowest_free_slot_is_found() {
    assert_eq!(find_free::<u8>(&vec![]), 0);
    assert_eq!(find_free(&vec![Some(1), None, None]), 1);
    assert_eq!(find_free(&vec![Some(1), Some(2)]), 2);
}

#[test]
fn placing_fills_gaps_before_it_grows() {
    let mut list = vec![Some('a'), None, Some('c')];
    assert_eq!(place(&mut list, Some('b')), 1);
    assert_eq!(place(&mut list, Some('d')), 3);
    assert_eq!(list, vec![Some('a'), Some('b'), Some('c'), Some('d')]);
}

#[test]
fn filing_adds_empty_slots() {
    let mut list = vec![Some(1)];
    put_at(&mut list, 3, 9);
    assert_eq!(list, vec![Some(1), None, None, Some(9)]);
    put_at(&mut list, 0, 5);
    assert_eq!(list, vec![Some(5), None, None, Some(9)]);
}
