use bufcli::window::make_window_func;

// Day of the year in a non-leap calendar.
fn doy(month: u32, day: u32) -> u32 {
    let starts = [0u32, 31, 59, 90, 120, 151, 181, 212, 243, 273, 304, 334];
    starts[(month - 1) as usize] + day
}

#[test]
fn window_wrapping_the_turn_of_the_year() {
    // Centered on Jan 3 with radius 7: Dec 27 through Jan 10.
    let w = make_window_func(doy(1, 3), 7);
    assert!(w.contains(12, 27));
    assert!(w.contains(12, 28));
    assert!(w.contains(12, 31));
    assert!(w.contains(1, 1));
    assert!(w.contains(1, 3));
    assert!(w.contains(1, 10));
    assert!(!w.contains(12, 26));
    assert!(!w.contains(1, 11));
    assert!(!w.contains(6, 15));
}

#[test]
fn window_inside_one_month() {
    // Centered on Jun 15 with radius 7: Jun 8 through Jun 22, and
    // nothing of any other month.
    let w = make_window_func(doy(6, 15), 7);
    for day in 1..=30 {
        assert_eq!(w.contains(6, day), (8..=22).contains(&day), "Jun {day}");
    }
    for month in 1..=12 {
        if month != 6 {
            for day in 1..=28 {
                assert!(!w.contains(month, day), "month {month} day {day}");
            }
        }
    }
}

#[test]
fn window_spanning_two_months() {
    // Centered on Mar 3 with radius 7: Feb 24 through Mar 10.
    let w = make_window_func(doy(3, 3), 7);
    assert!(w.contains(2, 24));
    assert!(w.contains(2, 28));
    // The leap day of a leap-year date falls into this window too.
    assert!(w.contains(2, 29));
    assert!(w.contains(3, 1));
    assert!(w.contains(3, 10));
    assert!(!w.contains(2, 23));
    assert!(!w.contains(3, 11));
}

#[test]
fn window_with_zero_radius() {
    let w = make_window_func(doy(7, 4), 0);
    assert!(w.contains(7, 4));
    assert!(!w.contains(7, 3));
    assert!(!w.contains(7, 5));
}

#[test]
fn every_day_falls_in_the_right_count_of_windows() {
    // With radius 7 every (month, day) of a non-leap year lies in
    // exactly 15 of the 365 windows.
    let mut memberships = 0u32;
    for center in 1..=365 {
        let w = make_window_func(center, 7);
        if w.contains(10, 20) {
            memberships += 1;
        }
    }
    assert_eq!(memberships, 15);
}
