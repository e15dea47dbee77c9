use empty_status::color::{cyan, green, orange, red, yellow};
use empty_status::display::{color_by_percent_remaining, format_duration, percent};

#[test]
fn duration_ceiling_is_ten_years() {
    assert_eq!(format_duration(315_576_000), " > 10 y  ");
}

#[test]
fn durations_use_the_two_largest_units() {
    assert_eq!(format_duration(59), "    59 s  ");
    assert_eq!(format_duration(61), " 1 m  1 s");
    assert_eq!(format_duration(3_661), " 1 h  1 m");
    assert_eq!(format_duration(90_000), " 1 d  1 h");
    assert_eq!(format_duration(700_000), " 1 w  1 d");
    assert_eq!(format_duration(31_557_600), " 1 y  0 w");
}

#[test]
fn remaining_percentages_run_from_red_to_cyan() {
    assert_eq!(color_by_percent_remaining(0), red());
    assert_eq!(color_by_percent_remaining(19), red());
    assert_eq!(color_by_percent_remaining(20), orange());
    assert_eq!(color_by_percent_remaining(40), yellow());
    assert_eq!(color_by_percent_remaining(60), green());
    assert_eq!(color_by_percent_remaining(80), cyan());
}

#[test]
fn percentages_round_half_to_even() {
    assert_eq!(percent(1, 8), 12);
    assert_eq!(percent(3, 8), 38);
    assert_eq!(percent(1, 3), 33);
    assert_eq!(percent(5, 0), 0);
}
