use obelisk_amm::constants::{FEE_DENOMINATOR, FEE_NUMERATOR, MAX_FEE_RATE, MINIMUM_LIQUIDITY};
use obelisk_amm::math::{get_amount_out, integer_sqrt, quote};
use obelisk_amm::ErrorCode;

#[test]
fn constants_have_their_values() {
    assert_eq!(MINIMUM_LIQUIDITY, 1000);
    assert_eq!(FEE_NUMERATOR, 997);
    assert_eq!(FEE_DENOMINATOR, 1000);
    assert_eq!(MAX_FEE_RATE, 10_000);
}

#[test]
fn integer_sqrt_of_zero_is_zero() {
    assert_eq!(integer_sqrt(0), 0);
}

#[test]
fn integer_sqrt_of_small_values() {
    let expected: [u128; 17] = [0, 1, 1, 1, 2, 2, 2, 2, 2, 3, 3, 3, 3, 3, 3, 3, 4];
    for (value, root) in expected.iter().enumerate() {
        assert_eq!(integer_sqrt(value as u128), *root);
    }
}

#[test]
fn integer_sqrt_around_perfect_squares() {
    let mut root: u128 = 1;
    while root < 1u128 << 63 {
        let square = root * root;
        assert_eq!(integer_sqrt(square), root);
        assert_eq!(integer_sqrt(square - 1), root - 1);
        assert_eq!(integer_sqrt(square + 1), root);
        root = root * 3 + 1;
    }
}

#[test]
fn integer_sqrt_of_the_largest_values() {
    let max64 = u64::MAX as u128;
    assert_eq!(integer_sqrt(u128::MAX), max64);
    assert_eq!(integer_sqrt(max64 * max64), max64);
    assert_eq!(integer_sqrt(max64 * max64 - 1), max64 - 1);
    assert_eq!(integer_sqrt(1u128 << 127), 13043817825332782212);
}

#[test]
fn integer_sqrt_is_the_floor_on_a_sweep() {
    let mut value: u128 = 0;
    while value < 5000 {
        let root = integer_sqrt(value);
        assert!(root * root <= value);
        assert!((root + 1) * (root + 1) > value);
        value += 1;
    }
}

#[test]
fn quote_rounds_down() {
    assert_eq!(quote(3, 2, 7), Ok(10));
    assert_eq!(quote(1000, 1_000_000, 3_000_000), Ok(3000));
    assert_eq!(quote(1, 3, 2), Ok(0));
}

#[test]
fn quote_can_exceed_64_bits() {
    assert_eq!(
        quote(u64::MAX, 1, u64::MAX),
        Ok(340282366920938463426481119284349108225)
    );
}

#[test]
fn quote_rejects_a_zero_amount() {
    assert_eq!(quote(0, 5, 5), Err(ErrorCode::InsufficientAmount));
    assert_eq!(quote(0, 0, 0), Err(ErrorCode::InsufficientAmount));
}

#[test]
fn quote_rejects_an_empty_reserve() {
    assert_eq!(quote(1, 0, 5), Err(ErrorCode::InsufficientLiquidity));
    assert_eq!(quote(1, 5, 0), Err(ErrorCode::InsufficientLiquidity));
}

#[test]
fn amount_out_of_the_reference_swap() {
    assert_eq!(get_amount_out(1000, 1_000_000, 1_000_000), Ok(996));
}

#[test]
fn amount_out_of_small_inputs() {
    assert_eq!(get_amount_out(5, 1000, 1000), Ok(4));
    assert_eq!(get_amount_out(1, 1_000_000, 1_000_000), Ok(0));
}

#[test]
fn amount_out_where_the_product_exceeds_128_bits() {
    assert_eq!(
        get_amount_out(u64::MAX, 1, u64::MAX),
        Ok(18446744073709551613)
    );
    assert_eq!(
        get_amount_out(1 << 60, 1 << 60, 1 << 60),
        Ok(575594762189797914)
    );
    assert_eq!(
        get_amount_out(u64::MAX, u64::MAX, u64::MAX),
        Ok(9209516195036766630)
    );
    assert_eq!(
        get_amount_out(
            1_000_000_000_000_000_000,
            3_000_000_000_000_000_000,
            7_000_000_000_000_000_000
        ),
        Ok(1746059544658493870)
    );
}

#[test]
fn amount_out_agrees_with_the_direct_formula_where_it_fits() {
    let reserves: [(u64, u64); 4] = [
        (1_000_000, 1_000_000),
        (1, 1_000_000_000),
        (123_456_789, 987),
        (4_000_000_000, 4_000_000_000),
    ];
    let inputs: [u64; 6] = [1, 2, 999, 1000, 1_000_003, 4_000_000_000];
    for (reserve_in, reserve_out) in reserves.iter() {
        for amount_in in inputs.iter() {
            let with_fee = *amount_in as u128 * 997;
            let expected =
                with_fee * *reserve_out as u128 / (*reserve_in as u128 * 1000 + with_fee);
            assert_eq!(
                get_amount_out(*amount_in, *reserve_in, *reserve_out),
                Ok(expected as u64)
            );
        }
    }
}

#[test]
fn amount_out_rejects_a_zero_input() {
    assert_eq!(
        get_amount_out(0, 1000, 1000),
        Err(ErrorCode::InsufficientAmount)
    );
}

#[test]
fn amount_out_rejects_an_empty_reserve() {
    assert_eq!(
        get_amount_out(10, 0, 1000),
        Err(ErrorCode::InsufficientLiquidity)
    );
    assert_eq!(
        get_amount_out(10, 1000, 0),
        Err(ErrorCode::InsufficientLiquidity)
    );
}

#[test]
fn amount_out_never_falls_as_the_input_grows() {
    let mut previous: u64 = 0;
    let mut amount_in: u64 = 1;
    while amount_in < 200_000 {
        let out = get_amount_out(amount_in, 50_000, 70_000).unwrap();
        assert!(out >= previous);
        previous = out;
        amount_in += 37;
    }
}

#[test]
fn amount_out_stays_below_the_output_without_a_fee() {
    let mut amount_in: u64 = 1;
    while amount_in < 200_000 {
        let out = get_amount_out(amount_in, 50_000, 70_000).unwrap() as u128;
        let grown = 50_000u128 + amount_in as u128;
        let feeless = amount_in as u128 * 70_000;
        assert!(out * grown < feeless);
        assert!(out <= feeless / grown);
        assert!(out < 70_000);
        amount_in += 41;
    }
}
