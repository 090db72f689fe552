#[test]
fn it_works() {
    // 1 + 2 is not 4: the sum is 3
    assert_ne!(1 + 2, 4, "Result is not equal to 4");
    assert_eq!(1 + 2, 3);
}
