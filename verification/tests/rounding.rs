use mmm_core::rounding::PseudoRightShift;
use mmm_core::rounding::RoundingPolicy::Away;
use mmm_core::rounding::RoundingPolicy::Even;
use mmm_core::rounding::RoundingPolicy::MinusInf;
use mmm_core::rounding::RoundingPolicy::Odd;
use mmm_core::rounding::RoundingPolicy::PlusInf;
use mmm_core::rounding::RoundingPolicy::Zero;

#[test]
fn test_zero() {
    assert_eq!(0i32.q_scale(2i32.pow(30), 0, Zero), 0);
    assert_eq!(1i32.q_scale(2i32.pow(30), 0, Zero), 0);
    assert_eq!(2i32.q_scale(2i32.pow(30), 0, Zero), 1);
    assert_eq!(3i32.q_scale(2i32.pow(30), 0, Zero), 1);
    assert_eq!((-1i32).q_scale(2i32.pow(30), 0, Zero), 0);
    assert_eq!((-2i32).q_scale(2i32.pow(30), 0, Zero), -1);
    assert_eq!((-3i32).q_scale(2i32.pow(30), 0, Zero), -1);
    assert_eq!(2i32.q_scale(2i32.pow(30), 1, Zero), 0);
    assert_eq!(3i32.q_scale(2i32.pow(30), 1, Zero), 1);
    assert_eq!(4i32.q_scale(2i32.pow(30), 1, Zero), 1);
    assert_eq!(5i32.q_scale(2i32.pow(30), 1, Zero), 1);
    assert_eq!(6i32.q_scale(2i32.pow(30), 1, Zero), 1);
    assert_eq!((-2i32).q_scale(2i32.pow(30), 1, Zero), 0);
    assert_eq!((-3i32).q_scale(2i32.pow(30), 1, Zero), -1);
    assert_eq!((-4i32).q_scale(2i32.pow(30), 1, Zero), -1);
    assert_eq!((-5i32).q_scale(2i32.pow(30), 1, Zero), -1);
    assert_eq!((-6i32).q_scale(2i32.pow(30), 1, Zero), -1);
}

#[test]
fn test_away() {
    assert_eq!(0i32.q_scale(2i32.pow(30), 0, Away), 0);
    assert_eq!(1i32.q_scale(2i32.pow(30), 0, Away), 1);
    assert_eq!(2i32.q_scale(2i32.pow(30), 0, Away), 1);
    assert_eq!(3i32.q_scale(2i32.pow(30), 0, Away), 2);
    assert_eq!((-1i32).q_scale(2i32.pow(30), 0, Away), -1);
    assert_eq!((-2i32).q_scale(2i32.pow(30), 0, Away), -1);
    assert_eq!((-3i32).q_scale(2i32.pow(30), 0, Away), -2);
    assert_eq!(2i32.q_scale(2i32.pow(30), 1, Away), 1);
    assert_eq!(3i32.q_scale(2i32.pow(30), 1, Away), 1);
    assert_eq!(4i32.q_scale(2i32.pow(30), 1, Away), 1);
    assert_eq!(5i32.q_scale(2i32.pow(30), 1, Away), 1);
    assert_eq!(6i32.q_scale(2i32.pow(30), 1, Away), 2);
    assert_eq!((-2i32).q_scale(2i32.pow(30), 1, Away), -1);
    assert_eq!((-3i32).q_scale(2i32.pow(30), 1, Away), -1);
    assert_eq!((-4i32).q_scale(2i32.pow(30), 1, Away), -1);
    assert_eq!((-5i32).q_scale(2i32.pow(30), 1, Away), -1);
    assert_eq!((-6i32).q_scale(2i32.pow(30), 1, Away), -2);
}

#[test]
fn test_plus_inf() {
    assert_eq!(0i32.q_scale(2i32.pow(30), 0, PlusInf), 0);
    assert_eq!(1i32.q_scale(2i32.pow(30), 0, PlusInf), 1);
    assert_eq!(2i32.q_scale(2i32.pow(30), 0, PlusInf), 1);
    assert_eq!(3i32.q_scale(2i32.pow(30), 0, PlusInf), 2);
    assert_eq!((-1i32).q_scale(2i32.pow(30), 0, PlusInf), 0);
    assert_eq!((-2i32).q_scale(2i32.pow(30), 0, PlusInf), -1);
    assert_eq!((-3i32).q_scale(2i32.pow(30), 0, PlusInf), -1);
    assert_eq!(2i32.q_scale(2i32.pow(30), 1, PlusInf), 1);
    assert_eq!(3i32.q_scale(2i32.pow(30), 1, PlusInf), 1);
    assert_eq!(4i32.q_scale(2i32.pow(30), 1, PlusInf), 1);
    assert_eq!(5i32.q_scale(2i32.pow(30), 1, PlusInf), 1);
    assert_eq!(6i32.q_scale(2i32.pow(30), 1, PlusInf), 2);
    assert_eq!((-2i32).q_scale(2i32.pow(30), 1, PlusInf), 0);
    assert_eq!((-3i32).q_scale(2i32.pow(30), 1, PlusInf), -1);
    assert_eq!((-4i32).q_scale(2i32.pow(30), 1, PlusInf), -1);
    assert_eq!((-5i32).q_scale(2i32.pow(30), 1, PlusInf), -1);
    assert_eq!((-6i32).q_scale(2i32.pow(30), 1, PlusInf), -1);
}

#[test]
fn test_minus_inf() {
    assert_eq!(0i32.q_scale(2i32.pow(30), 0, MinusInf), 0);
    assert_eq!(1i32.q_scale(2i32.pow(30), 0, MinusInf), 0);
    assert_eq!(2i32.q_scale(2i32.pow(30), 0, MinusInf), 1);
    assert_eq!(3i32.q_scale(2i32.pow(30), 0, MinusInf), 1);
    assert_eq!((-1i32).q_scale(2i32.pow(30), 0, MinusInf), -1);
    assert_eq!((-2i32).q_scale(2i32.pow(30), 0, MinusInf), -1);
    assert_eq!((-3i32).q_scale(2i32.pow(30), 0, MinusInf), -2);
    assert_eq!(2i32.q_scale(2i32.pow(30), 1, MinusInf), 0);
    assert_eq!(3i32.q_scale(2i32.pow(30), 1, MinusInf), 1);
    assert_eq!(4i32.q_scale(2i32.pow(30), 1, MinusInf), 1);
    assert_eq!(5i32.q_scale(2i32.pow(30), 1, MinusInf), 1);
    assert_eq!(6i32.q_scale(2i32.pow(30), 1, MinusInf), 1);
    assert_eq!((-2i32).q_scale(2i32.pow(30), 1, MinusInf), -1);
    assert_eq!((-3i32).q_scale(2i32.pow(30), 1, MinusInf), -1);
    assert_eq!((-4i32).q_scale(2i32.pow(30), 1, MinusInf), -1);
    assert_eq!((-5i32).q_scale(2i32.pow(30), 1, MinusInf), -1);
    assert_eq!((-6i32).q_scale(2i32.pow(30), 1, MinusInf), -2);
    assert_eq!((-9i32).q_scale(2i32.pow(30), 5, MinusInf), 0);
}

#[test]
fn test_even() {
    assert_eq!(0i32.q_scale(2i32.pow(30), 0, Even), 0);
    assert_eq!(1i32.q_scale(2i32.pow(30), 0, Even), 0);
    assert_eq!(2i32.q_scale(2i32.pow(30), 0, Even), 1);
    assert_eq!(3i32.q_scale(2i32.pow(30), 0, Even), 2);
    assert_eq!((-1i32).q_scale(2i32.pow(30), 0, Even), 0);
    assert_eq!((-2i32).q_scale(2i32.pow(30), 0, Even), -1);
    assert_eq!((-3i32).q_scale(2i32.pow(30), 0, Even), -2);
    assert_eq!(2i32.q_scale(2i32.pow(30), 1, Even), 0);
    assert_eq!(3i32.q_scale(2i32.pow(30), 1, Even), 1);
    assert_eq!(4i32.q_scale(2i32.pow(30), 1, Even), 1);
    assert_eq!(5i32.q_scale(2i32.pow(30), 1, Even), 1);
    assert_eq!(6i32.q_scale(2i32.pow(30), 1, Even), 2);
    assert_eq!((-2i32).q_scale(2i32.pow(30), 1, Even), 0);
    assert_eq!((-3i32).q_scale(2i32.pow(30), 1, Even), -1);
    assert_eq!((-4i32).q_scale(2i32.pow(30), 1, Even), -1);
    assert_eq!((-5i32).q_scale(2i32.pow(30), 1, Even), -1);
    assert_eq!((-6i32).q_scale(2i32.pow(30), 1, Even), -2);
}

#[test]
fn test_odd() {
    assert_eq!(0i32.q_scale(2i32.pow(30), 0, Odd), 0);
    assert_eq!(1i32.q_scale(2i32.pow(30), 0, Odd), 1);
    assert_eq!(2i32.q_scale(2i32.pow(30), 0, Odd), 1);
    assert_eq!(3i32.q_scale(2i32.pow(30), 0, Odd), 1);
    assert_eq!((-1i32).q_scale(2i32.pow(30), 0, Odd), -1);
    assert_eq!((-2i32).q_scale(2i32.pow(30), 0, Odd), -1);
    assert_eq!((-3i32).q_scale(2i32.pow(30), 0, Odd), -1);
    assert_eq!(2i32.q_scale(2i32.pow(30), 1, Odd), 1);
    assert_eq!(3i32.q_scale(2i32.pow(30), 1, Odd), 1);
    assert_eq!(4i32.q_scale(2i32.pow(30), 1, Odd), 1);
    assert_eq!(5i32.q_scale(2i32.pow(30), 1, Odd), 1);
    assert_eq!(6i32.q_scale(2i32.pow(30), 1, Odd), 1);
    assert_eq!((-2i32).q_scale(2i32.pow(30), 1, Odd), -1);
    assert_eq!((-3i32).q_scale(2i32.pow(30), 1, Odd), -1);
    assert_eq!((-4i32).q_scale(2i32.pow(30), 1, Odd), -1);
    assert_eq!((-5i32).q_scale(2i32.pow(30), 1, Odd), -1);
    assert_eq!((-6i32).q_scale(2i32.pow(30), 1, Odd), -1);
}

#[test]
fn simple_forms_match_general_policies() {
    for v in [-7i32, -6, -3, -1, 0, 1, 2, 3, 6, 9] {
        for shift in [0usize, 1, 5] {
            assert_eq!(v.q_even(2i32.pow(30), shift), v.q_scale(2i32.pow(30), shift, Even));
            assert_eq!(v.q_away(2i32.pow(30), shift), v.q_scale(2i32.pow(30), shift, Away));
            assert_eq!(
                v.q_to_plus_inf(2i32.pow(30), shift),
                v.q_scale(2i32.pow(30), shift, PlusInf)
            );
        }
    }
}

#[test]
fn rounding_symmetry_samples() {
    for v in [-9i32, -6, -5, -3, -2, -1, 0, 1, 2, 3, 5, 6, 9] {
        for shift in [0usize, 1, 5] {
            let m = 2i32.pow(30);
            assert_eq!(v.q_scale(m, shift, Away), -(-v).q_scale(m, shift, Away));
            assert_eq!(v.q_scale(m, shift, Zero), -(-v).q_scale(m, shift, Zero));
            assert_eq!(v.q_scale(m, shift, MinusInf), -(-v).q_scale(m, shift, PlusInf));
        }
    }
}

#[test]
fn large_shift_underflows_to_zero() {
    assert_eq!(1000i32.q_scale(2i32.pow(30), 40, Away), 0);
    assert_eq!((-1000i32).q_scale(2i32.pow(30), 40, Away), 0);
    assert_eq!(i32::MAX.q_scale(i32::MAX, 70, PlusInf), 0);
}
