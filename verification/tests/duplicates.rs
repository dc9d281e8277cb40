use multisig::has_duplicates;

#[test]
fn test_contains_duplicates() {
    // test sets without duplicates
    let empty: [u32; 0] = [];
    assert!(!has_duplicates(&empty));
    assert!(!has_duplicates(&[1]));
    assert!(!has_duplicates(&[1, 2, 3]));
    assert!(!has_duplicates(&[1, 2, 3, 4, 5]));

    // test sets with duplicates
    assert!(has_duplicates(&[1, 1]));
    assert!(has_duplicates(&[1, 2, 2]));
    assert!(has_duplicates(&[1, 1, 2, 3]));
    assert!(has_duplicates(&[1, 2, 3, 3]));
    assert!(has_duplicates(&[1, 2, 2, 3]));
    assert!(has_duplicates(&[1, 2, 3, 3, 4, 5]));
}
