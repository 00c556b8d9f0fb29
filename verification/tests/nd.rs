use stacklang::nd::{A1, A2, A3};

#[test]
fn lib_index() {
    let a = A1::new(2, &[1, 2]);
    let b = A2::new([2, 2], &[1, 2, 3, 4]);
    let c = A3::new([3, 2, 2], &[1, 2, 3, 3, 4, 5, 5, 6, 7, 7, 8, 9]);

    let ix0 = 1;
    let ix1 = [1, 0];
    let ix2 = [2, 1, 0];
    assert!(a.index(ix0) == 2);
    assert!(b.index(ix1) == 2);
    assert!(c.index(ix2) == 5);
}

#[test]
fn iter() {
    let a = A1::new(2, &[1, 2]);
    let b = A2::new([2, 2], &[1, 2, 3, 4]);
    let c = A3::new([3, 2, 2], &[1, 2, 3, 3, 4, 5, 5, 6, 7, 7, 8, 9]);
    let r_a = vec![2, 3];
    let r_b = vec![2, 3, 4, 5];
    let r_c = vec![2, 3, 4, 4, 5, 6, 6, 7, 8, 8, 9, 10];

    assert!(r_a == a.iter().collect().iter().map(|x| x + 1).collect::<Vec<_>>());
    assert!(r_b == b.iter().collect().iter().map(|x| x + 1).collect::<Vec<_>>());
    assert!(r_c == c.iter().collect().iter().map(|x| x + 1).collect::<Vec<_>>());
}

#[test]
fn iter_next_walks_in_order() {
    let a = A1::new(3, &[7, 8, 9]);
    let mut it = a.iter();
    assert_eq!(it.next(), Some(7));
    assert_eq!(it.next(), Some(8));
    assert_eq!(it.next(), Some(9));
    assert_eq!(it.next(), None);
}
