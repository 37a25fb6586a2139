use tlq::say_hello;

#[test]
fn test_say_hello() {
    assert_eq!(say_hello("world"), "Hello, world!");
}
