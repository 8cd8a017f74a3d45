use tyr_rust::fib::{fib_for, fib_loop, fib_while};

#[test]
fn main_it_works() {
    assert_eq!(1, fib_loop(1));
    assert_eq!(1, fib_loop(2));
    assert_eq!(2, fib_loop(3));
    assert_eq!(55, fib_loop(10));
    assert_eq!(1, fib_while(1));
    assert_eq!(1, fib_while(2));
    assert_eq!(2, fib_while(3));
    assert_eq!(55, fib_while(10));
    assert_eq!(1, fib_for(1));
    assert_eq!(1, fib_for(2));
    assert_eq!(2, fib_for(3));
    assert_eq!(55, fib_for(10));
}

#[test]
fn fib_agrees_up_to_the_largest_i32() {
    for n in 0..=46u8 {
        let a = fib_loop(n);
        assert_eq!(a, fib_while(n));
        assert_eq!(a, fib_for(n));
    }
    assert_eq!(fib_loop(0), 1);
    assert_eq!(fib_for(46), 1836311903);
}
