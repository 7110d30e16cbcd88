//! World-file rendering, parsing, and the round trip between them.

use georef::Frac;
use georef::RefBox;
use georef::WorldExtent;
use georef::worldfile::format_frac;
use georef::worldfile::parse_frac_line;
use georef::worldfile::parse_world_file;
use georef::worldfile::world_file_contents;

fn eqv(a: &Frac, b: &Frac) -> bool {
    a.num * b.den == b.num * a.den
}

#[test]
fn format_plain_values() {
    assert_eq!(format_frac(&Frac { num: 0, den: 1 }), b"0");
    assert_eq!(format_frac(&Frac { num: 360, den: 1 }), b"360");
    assert_eq!(format_frac(&Frac { num: -180, den: 1 }), b"-180");
    assert_eq!(format_frac(&Frac { num: 1474560, den: 8388608 }), b"0.17578125");
    assert_eq!(format_frac(&Frac { num: -368640, den: 4194304 }), b"-0.087890625");
    assert_eq!(format_frac(&Frac { num: 45, den: 10 }), b"4.5");
    assert_eq!(format_frac(&Frac { num: -1440, den: 4 }), b"-360");
}

#[test]
fn format_truncates_long_expansions() {
    // One third has no finite decimal expansion; eighteen digits are kept.
    assert_eq!(format_frac(&Frac { num: 1, den: 3 }), b"0.333333333333333333");
}

#[test]
fn parse_plain_values() {
    assert_eq!(parse_frac_line(b"45"), Some(Frac { num: 45, den: 1 }));
    assert_eq!(parse_frac_line(b"-180"), Some(Frac { num: -180, den: 1 }));
    assert_eq!(parse_frac_line(b"12.5"), Some(Frac { num: 125, den: 10 }));
    assert_eq!(parse_frac_line(b"-0.25"), Some(Frac { num: -25, den: 100 }));
    assert_eq!(
        parse_frac_line(b"0.17578125"),
        Some(Frac { num: 17578125, den: 100000000 })
    );
}

#[test]
fn parse_rejects_malformed_lines() {
    assert_eq!(parse_frac_line(b""), None);
    assert_eq!(parse_frac_line(b"-"), None);
    assert_eq!(parse_frac_line(b"."), None);
    assert_eq!(parse_frac_line(b"12."), None);
    assert_eq!(parse_frac_line(b".5"), None);
    assert_eq!(parse_frac_line(b"1.2.3"), None);
    assert_eq!(parse_frac_line(b"12a"), None);
    assert_eq!(parse_frac_line(b"a12"), None);
    assert_eq!(parse_frac_line(b"1 2"), None);
    assert_eq!(parse_frac_line(b"--5"), None);
    // Twenty-one integer digits are beyond the cap.
    assert_eq!(parse_frac_line(b"123456789012345678901"), None);
    // Nineteen fractional digits are beyond the cap.
    assert_eq!(parse_frac_line(b"0.1234567890123456789"), None);
}

#[test]
fn world_file_text_scenario_geographic() {
    let extent = WorldExtent::geographic();
    let refbox = RefBox::new(2048, 1024, &extent).unwrap();
    let values = refbox.world_file_values();
    let text = world_file_contents(&values);
    assert_eq!(
        std::str::from_utf8(&text).unwrap(),
        "0.17578125\n0\n0\n-0.087890625\n-180\n45\n"
    );
}

#[test]
fn world_file_round_trip_scenario() {
    let extent = WorldExtent::geographic();
    let refbox = RefBox::new(2048, 1024, &extent).unwrap();
    let values = refbox.world_file_values();
    let text = world_file_contents(&values);
    let parsed = parse_world_file(&text).unwrap();
    assert_eq!(parsed.len(), 6);
    for i in 0..6 {
        assert!(eqv(&parsed[i], &values[i]), "slot {} differs", i);
    }
}

#[test]
fn world_file_needs_exactly_six_lines() {
    assert_eq!(parse_world_file(b""), None);
    assert_eq!(parse_world_file(b"1\n2\n3\n4\n5\n"), None);
    assert_eq!(parse_world_file(b"1\n2\n3\n4\n5\n6\n7\n"), None);
    // The last line must be newline-terminated too.
    assert_eq!(parse_world_file(b"1\n2\n3\n4\n5\n6"), None);
    let ok = parse_world_file(b"0.5\n0\n0\n-0.5\n-180\n90\n").unwrap();
    assert_eq!(ok.len(), 6);
    assert_eq!(ok[0], Frac { num: 5, den: 10 });
    assert_eq!(ok[4], Frac { num: -180, den: 1 });
}

#[test]
fn parse_accepts_digit_caps_and_leading_zeros() {
    assert_eq!(
        parse_frac_line(b"0.123456789012345678"),
        Some(Frac { num: 123456789012345678, den: 1000000000000000000 })
    );
    assert_eq!(parse_frac_line(b"007"), Some(Frac { num: 7, den: 1 }));
    assert_eq!(parse_frac_line(b"0.50"), Some(Frac { num: 50, den: 100 }));
    // Twenty integer digits are still within the cap.
    assert_eq!(
        parse_frac_line(b"12345678901234567890"),
        Some(Frac { num: 12345678901234567890, den: 1 })
    );
}

#[test]
fn world_file_round_trip_mercator() {
    let extent = WorldExtent::web_mercator();
    let refbox = RefBox::new(640, 480, &extent).unwrap();
    let values = refbox.world_file_values();
    let text = world_file_contents(&values);
    let parsed = parse_world_file(&text).unwrap();
    for i in 0..6 {
        assert!(eqv(&parsed[i], &values[i]), "slot {} differs", i);
    }
}
