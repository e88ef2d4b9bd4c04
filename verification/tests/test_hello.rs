//! Tests of addition and the factorial.
use rust_ventures::calculator::multiply;
use rust_ventures::hello::{add_numbers, factorial};

#[test]
fn test_add_numbers() {
    assert_eq!(add_numbers(2, 3), 5);
    assert_eq!(add_numbers(-1, 1), 0);
    assert_eq!(add_numbers(0, 0), 0);
    assert_eq!(add_numbers(100, 200), 300);
}

#[test]
fn test_factorial() {
    assert_eq!(factorial(0), 1);
    assert_eq!(factorial(1), 1);
    assert_eq!(factorial(5), 120);
    assert_eq!(factorial(3), 6);
    assert_eq!(factorial(4), 24);
}

#[test]
fn test_factorial_edge_cases() {
    // Test that factorial works for small numbers
    assert_eq!(factorial(2), 2);

    // Test larger number
    assert_eq!(factorial(6), 720);
}

#[test]
fn add_numbers_wraps_on_overflow() {
    assert_eq!(add_numbers(i32::MAX, 1), i32::MIN);
    assert_eq!(add_numbers(i32::MIN, -1), i32::MAX);
    assert_eq!(add_numbers(5, 3), 8);
}

#[test]
fn add_numbers_commutes() {
    let samples = [0, 1, -1, 100, 200, i32::MAX, i32::MIN];
    for &a in samples.iter() {
        for &b in samples.iter() {
            assert_eq!(add_numbers(a, b), add_numbers(b, a));
        }
    }
}

#[test]
fn factorial_is_exact_while_it_fits() {
    let expected: [u32; 13] = [
        1, 1, 2, 6, 24, 120, 720, 5040, 40320, 362880, 3628800, 39916800, 479001600,
    ];
    for n in 0..13u32 {
        assert_eq!(factorial(n), expected[n as usize]);
    }
}

#[test]
fn factorial_follows_its_recurrence() {
    for n in 2..=12u32 {
        assert_eq!(factorial(n), n * factorial(n - 1));
    }
    for n in 13..=40u32 {
        assert_eq!(factorial(n), n.wrapping_mul(factorial(n - 1)));
    }
}

#[test]
fn factorial_wraps_on_overflow() {
    assert_eq!(factorial(13), 1932053504);
    assert_eq!(factorial(14), 1278945280);
    assert_eq!(factorial(20), 2192834560);
    assert_eq!(factorial(33), 2147483648);
}

#[test]
fn factorial_is_zero_from_thirty_four_on() {
    assert_eq!(factorial(34), 0);
    assert_eq!(factorial(35), 0);
    assert_eq!(factorial(1000), 0);
    assert_eq!(factorial(u32::MAX), 0);
}

#[test]
fn squares_of_one_to_five() {
    let mut squares: Vec<i32> = Vec::new();
    for i in 1..=5 {
        squares.push(multiply(i, i));
    }
    assert_eq!(squares, vec![1, 4, 9, 16, 25]);
}
