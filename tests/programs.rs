use snippet_stage::programs::{factorial, fib};

#[test]
fn fib_of_twenty() {
    assert_eq!(fib(20), 6765);
}

#[test]
fn fib_first_values() {
    assert_eq!(fib(0), 0);
    assert_eq!(fib(1), 1);
    assert_eq!(fib(2), 1);
    assert_eq!(fib(10), 55);
}

#[test]
fn fib_largest_input() {
    assert_eq!(fib(92), 7540113804746346429);
}

#[test]
fn factorial_of_ten() {
    assert_eq!(factorial(10), 3628800);
}

#[test]
fn factorial_small_and_largest() {
    assert_eq!(factorial(0), 1);
    assert_eq!(factorial(1), 1);
    assert_eq!(factorial(5), 120);
    assert_eq!(factorial(20), 2432902008176640000);
}
