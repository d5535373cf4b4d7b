use switchyard::bytes::sorts_below;

#[test]
fn byte_strings_sort_lexicographically() {
    assert!(sorts_below(&[1, 2], &[1, 2, 0]));
    assert!(!sorts_below(&[2], &[1, 9]));
}
