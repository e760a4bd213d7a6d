use yantrikdb_explorer::calendar::{date_of_day, fmt_clock, has_day};
use yantrikdb_explorer::double::Double;
use yantrikdb_explorer::fixed::fixed;

fn double(x: f64) -> Double {
    Double::from_bits(x.to_bits())
}

fn fmt_day(secs: f64) -> String {
    yantrikdb_explorer::calendar::fmt_day(&double(secs))
}

#[test]
fn fmt_day_matches_known_dates() {
    assert_eq!(fmt_day(0.0), "—");
    assert_eq!(fmt_day(86_400.0), "1970-01-02");
    assert_eq!(fmt_day(1_789_300_000.0), "2026-09-13");
}

#[test]
fn days_without_a_date_are_dashes() {
    for x in [-1.0, -0.0, f64::NAN, f64::INFINITY, f64::NEG_INFINITY] {
        assert_eq!(fmt_day(x), "—", "{x}");
    }
    assert_eq!(fmt_day(0.5), "1970-01-01");
    assert_eq!(fmt_day(f64::MIN_POSITIVE), "1970-01-01");
    assert_eq!(fmt_day(951_782_400.0), "2000-02-29");
    assert_eq!(fmt_day(4_107_542_400.0), "2100-03-01");
    assert_eq!(fmt_day(4_107_542_399.0), "2100-02-28");
    assert_eq!(fmt_day(253_402_300_800.0), "10000-01-01");
}

#[test]
fn every_day_of_eight_centuries_follows_the_one_before() {
    let leap = |y: i64| y % 4 == 0 && (y % 100 != 0 || y % 400 == 0);
    let (mut y, mut m, mut d) = (1970i64, 1i64, 1i64);
    for day in 0..300_000i64 {
        let date = date_of_day(day);
        assert_eq!((date.year, date.month, date.day), (y, m, d));
        let length = match m {
            2 => 28 + leap(y) as i64,
            4 | 6 | 9 | 11 => 30,
            _ => 31,
        };
        d += 1;
        if d > length {
            d = 1;
            m += 1;
        }
        if m > 12 {
            m = 1;
            y += 1;
        }
    }
}

#[test]
fn whole_days_are_those_of_floating_point() {
    let mut state: u64 = 42;
    for _ in 0..20_000 {
        state = state.wrapping_mul(6364136223846793005).wrapping_add(1442695040888963407);
        let x = f64::from_bits(state >> 1);
        if x.is_finite() && x > 0.0 {
            assert_eq!(double(x).whole_days(), (x / 86_400.0).floor() as i64, "{x:e}");
        }
        let y = (state >> (state % 60)) as f64;
        for z in [y, y * 86_400.0, (y + 1.0) * 86_400.0 - 1.0] {
            if z > 0.0 {
                assert_eq!(double(z).whole_days(), (z / 86_400.0).floor() as i64, "{z:e}");
            }
        }
    }
}

#[test]
fn whole_days_are_exact_below_two_to_the_sixtieth() {
    for day in [1u64, 2, 20_000, 1 << 30, 13_343_998_895_000] {
        let midnight = day * 86_400;
        let at = midnight as f64;
        assert_eq!(at as u64, midnight);
        assert_eq!(double(at).whole_days(), day as i64);
        let before = f64::from_bits(at.to_bits() - 1);
        assert_eq!(double(before).whole_days(), day as i64 - 1);
    }
}

#[test]
fn the_calendar_ends_with_its_numbers() {
    assert!(has_day(&double(1e18)));
    assert!(has_day(&double(f64::INFINITY)));
    assert!(!has_day(&double(1e300)));
}

#[test]
fn order_and_whole_part_are_those_of_floating_point() {
    let numbers = [
        0.0, -0.0, 1.0, -1.0, 0.5, 1.5, 1e-310, -1e-310, 86_399.99, 4e9, 1.8446744073709552e19,
        9.007199254740993e15, 1e20, 1e300, f64::INFINITY, f64::NEG_INFINITY, f64::NAN, -f64::NAN,
    ];
    for a in numbers {
        assert_eq!(double(a).whole_part(), a.max(0.0) as u64, "{a}");
        for b in numbers {
            assert_eq!(double(a).less_than(&double(b)), a < b, "{a} {b}");
        }
    }
}

#[test]
fn clocks_are_utc() {
    assert_eq!(fmt_clock(&double(0.0)), "00:00:00Z");
    assert_eq!(fmt_clock(&double(-5.0)), "00:00:00Z");
    assert_eq!(fmt_clock(&double(86_399.9)), "23:59:59Z");
    assert_eq!(fmt_clock(&double(1_789_300_000.0)), "11:46:40Z");
    assert_eq!(fmt_clock(&double(f64::NAN)), "00:00:00Z");
}

#[test]
fn fixed_places_are_those_of_std() {
    let mut state: u64 = 7;
    let mut numbers = vec![
        0.0, -0.0, 0.5, 0.25, 0.125, 0.375, 2.5, 0.005, 0.015, 0.045, 1.005, -0.001, 0.995, 9.995, 123456.789,
        9007199254740993.0, 1e22, 1e300, f64::MAX, f64::MIN_POSITIVE, f64::INFINITY, f64::NEG_INFINITY, f64::NAN,
        -f64::NAN, 4503599627370496.5, 45035996273704.125,
    ];
    for _ in 0..5_000 {
        state = state.wrapping_mul(6364136223846793005).wrapping_add(1442695040888963407);
        numbers.push(f64::from_bits(state));
        numbers.push((state >> 40) as f64 / 1024.0);
        numbers.push((state >> 44) as f64 / 1000.0);
    }
    for x in numbers {
        assert_eq!(fixed(&double(x), 1), format!("{x:.1}"), "{x:e}");
        assert_eq!(fixed(&double(x), 2), format!("{x:.2}"), "{x:e}");
    }
}
