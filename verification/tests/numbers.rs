use sensor_core::numbers::{parse_u64_range, push_decimal};

fn dec(n: u64) -> String {
    let mut v = Vec::new();
    push_decimal(&mut v, n);
    v.into_iter().collect()
}

fn parse(s: &str) -> Option<u64> {
    let v: Vec<char> = s.chars().collect();
    parse_u64_range(&v, 0, v.len())
}

#[test]
fn decimal_matches_display() {
    for n in [0u64, 7, 10, 99, 1000, 4294967296, u64::MAX] {
        assert_eq!(dec(n), n.to_string());
        assert_eq!(parse(&dec(n)), Some(n));
    }
}

#[test]
fn parse_matches_from_str() {
    for s in ["", "+", "-", "+0", "007", "12a", " 1", "18446744073709551615", "18446744073709551616", "+42", "-0", "٣"] {
        assert_eq!(parse(s), s.parse::<u64>().ok(), "{s:?}");
    }
}
