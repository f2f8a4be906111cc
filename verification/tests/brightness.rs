use backlight::adjust::{
    clamp_brightness, compute_new_brightness, percent_unit, plan_adjustment, AdjustDirection,
    AdjustOutcome,
};
use backlight::cli::{parse_direction, plan_invocation, Invocation};
use backlight::text::{brightness_file_text, parse_i32, parse_u32, render_decimal};

#[test]
fn clamping_within_bounds() {
    assert_eq!(clamp_brightness(-5, 100), 0);
    assert_eq!(clamp_brightness(150, 100), 100);
    assert_eq!(clamp_brightness(42, 100), 42);
    assert_eq!(clamp_brightness(0, 100), 0);
    assert_eq!(clamp_brightness(100, 100), 100);
    assert_eq!(clamp_brightness(7, 0), 0);
}

#[test]
fn percent_unit_floor_division() {
    assert_eq!(percent_unit(150), 1);
    assert_eq!(percent_unit(50), 0);
    assert_eq!(percent_unit(937), 9);
    assert_eq!(percent_unit(100), 1);
    assert_eq!(percent_unit(99), 0);
    assert_eq!(percent_unit(10000), 100);
}

#[test]
fn small_max_leaves_value_unchanged() {
    assert_eq!(compute_new_brightness(AdjustDirection::Inc, 5, 30, 50), 30);
    assert_eq!(compute_new_brightness(AdjustDirection::Dec, 5, 30, 50), 30);
    assert_eq!(compute_new_brightness(AdjustDirection::Inc, 400, 30, 50), 30);
}

#[test]
fn missing_amount_defaults_to_five() {
    let with_default = plan_invocation(Some(b"inc".as_slice()), None);
    let with_five = plan_invocation(Some(b"inc".as_slice()), Some(b"5".as_slice()));
    assert_eq!(
        with_default,
        Invocation::Adjust { dir: AdjustDirection::Inc, amount: 5 }
    );
    assert_eq!(with_default, with_five);
}

#[test]
fn directions_are_symmetric_without_clamping() {
    let up = compute_new_brightness(AdjustDirection::Inc, 10, 500, 937);
    let down = compute_new_brightness(AdjustDirection::Dec, 10, 500, 937);
    assert_eq!(up, 590);
    assert_eq!(down, 410);
    assert_eq!(up - 500, -(down - 500));
}

#[test]
fn repeated_large_increase_converges_to_max() {
    let mut current = 500;
    for _ in 0..5 {
        current = compute_new_brightness(AdjustDirection::Inc, 1000, current, 937);
        assert_eq!(current, 937);
    }
}

#[test]
fn invalid_direction_asks_for_usage() {
    assert_eq!(
        plan_invocation(Some(b"up".as_slice()), None),
        Invocation::Usage
    );
    assert_eq!(
        plan_invocation(Some(b"up".as_slice()), Some(b"7".as_slice())),
        Invocation::Usage
    );
    assert_eq!(plan_invocation(None, Some(b"7".as_slice())), Invocation::Usage);
}

#[test]
fn non_numeric_current_value_writes_nothing() {
    let outcome = plan_adjustment(AdjustDirection::Inc, 5, 937, b"abc");
    assert!(matches!(outcome, AdjustOutcome::NotANumber));
}

#[test]
fn end_to_end_example() {
    match plan_adjustment(AdjustDirection::Inc, 10, 937, b"500\n") {
        AdjustOutcome::Write { new_value, file_text } => {
            assert_eq!(new_value, 590);
            assert_eq!(file_text, b"590\n");
        }
        AdjustOutcome::NotANumber => panic!("a numeric file must parse"),
    }
}

#[test]
fn direction_flag_is_exact() {
    assert_eq!(parse_direction(b"inc"), Some(AdjustDirection::Inc));
    assert_eq!(parse_direction(b"dec"), Some(AdjustDirection::Dec));
    assert_eq!(parse_direction(b"up"), None);
    assert_eq!(parse_direction(b"Inc"), None);
    assert_eq!(parse_direction(b"inc "), None);
    assert_eq!(parse_direction(b""), None);
}

#[test]
fn bad_amount_is_fatal_not_usage() {
    assert_eq!(
        plan_invocation(Some(b"inc".as_slice()), Some(b"abc".as_slice())),
        Invocation::BadAmount
    );
    assert_eq!(
        plan_invocation(Some(b"dec".as_slice()), Some(b"-5".as_slice())),
        Invocation::BadAmount
    );
    assert_eq!(
        plan_invocation(Some(b"dec".as_slice()), Some(b" 12 ".as_slice())),
        Invocation::Adjust { dir: AdjustDirection::Dec, amount: 12 }
    );
}

#[test]
fn parse_i32_accepts_trimmed_decimals() {
    assert_eq!(parse_i32(b"500"), Some(500));
    assert_eq!(parse_i32(b" 500 \n"), Some(500));
    assert_eq!(parse_i32(b"\t0\r\n"), Some(0));
    assert_eq!(parse_i32(b"+5"), Some(5));
    assert_eq!(parse_i32(b"-5"), Some(-5));
    assert_eq!(parse_i32(b"007"), Some(7));
}

#[test]
fn parse_i32_rejects_malformed_text() {
    assert_eq!(parse_i32(b""), None);
    assert_eq!(parse_i32(b"   \n"), None);
    assert_eq!(parse_i32(b"abc"), None);
    assert_eq!(parse_i32(b"5x"), None);
    assert_eq!(parse_i32(b"1 2"), None);
    assert_eq!(parse_i32(b"+"), None);
    assert_eq!(parse_i32(b"-"), None);
    assert_eq!(parse_i32(b"--5"), None);
}

#[test]
fn parse_i32_respects_the_value_range() {
    assert_eq!(parse_i32(b"2147483647"), Some(i32::MAX));
    assert_eq!(parse_i32(b"2147483648"), None);
    assert_eq!(parse_i32(b"-2147483648"), Some(i32::MIN));
    assert_eq!(parse_i32(b"-2147483649"), None);
    assert_eq!(parse_i32(b"99999999999999999999"), None);
}

#[test]
fn parse_u32_rejects_signs_and_overflow() {
    assert_eq!(parse_u32(b"5"), Some(5));
    assert_eq!(parse_u32(b"+7"), Some(7));
    assert_eq!(parse_u32(b"-5"), None);
    assert_eq!(parse_u32(b" 10 "), Some(10));
    assert_eq!(parse_u32(b"4294967295"), Some(u32::MAX));
    assert_eq!(parse_u32(b"4294967296"), None);
    assert_eq!(parse_u32(b"abc"), None);
    assert_eq!(parse_u32(b""), None);
}

#[test]
fn rendering_matches_decimal_notation() {
    assert_eq!(render_decimal(0), b"0");
    assert_eq!(render_decimal(5), b"5");
    assert_eq!(render_decimal(590), b"590");
    assert_eq!(render_decimal(i32::MAX), b"2147483647");
    assert_eq!(brightness_file_text(590), b"590\n");
    assert_eq!(brightness_file_text(0), b"0\n");
}

#[test]
fn adjustment_clamps_at_both_ends() {
    assert_eq!(compute_new_brightness(AdjustDirection::Dec, 1000, 500, 937), 0);
    assert_eq!(compute_new_brightness(AdjustDirection::Inc, 1000, 500, 937), 937);
    assert_eq!(compute_new_brightness(AdjustDirection::Inc, u32::MAX, 0, i32::MAX), i32::MAX);
    assert_eq!(compute_new_brightness(AdjustDirection::Dec, u32::MAX, i32::MAX, i32::MAX), 0);
}
