fn double(n: usize) -> usize {
    n * 2
}

#[test]
fn it_works() {
    assert_eq!(1 + 1, 2);
}

#[test]
fn test_double() {
    let n = 1;
    let expected = 2;
    assert_eq!(double(n), expected);
}
