use statusfmt::args::{parse_bool, parse_fixed, parse_usize, Arg};
use statusfmt::error::{ConfigError, FormatError};
use statusfmt::fixed::Fixed;
use statusfmt::formatter::{
    new_formatter, BarFormatter, EngFixConfig, EngFormatter, FixFormatter, FlagFormatter,
    Formatter, FormatterHandle, StrFormatter,
};
use statusfmt::pacman::{get_update_count, PacmanConfig};
use statusfmt::unit::Unit;
use statusfmt::value::Value;

fn arg(k: &str, v: &str) -> Arg {
    Arg { key: String::from(k), val: String::from(v) }
}

fn plain_str_formatter(min_width: usize, max_width: usize, pango: bool) -> StrFormatter {
    StrFormatter { min_width, max_width, pango, rot_interval_ms: None, init_time: None }
}

#[test]
fn test_get_update_count() {
    let no_update = "";
    assert_eq!(get_update_count(no_update), 0);
    let two_updates_available = "systemd 245.4-2 -> 245.5-1\nsystemd-libs 245.4-2 -> 245.5-1\n";
    assert_eq!(get_update_count(two_updates_available), 2);
}

#[test]
fn update_count_skips_ignored_lines() {
    let report = "pkg 1 -> 2\nother 3 -> 4 [ignored]\nlast 5 -> 6";
    assert_eq!(get_update_count(report), 2);
    assert_eq!(get_update_count("only [ignored]\n"), 0);
}

#[test]
fn pacman_config_defaults() {
    let c = PacmanConfig::default();
    assert_eq!(c.interval, 600);
    assert_eq!(c.format, "{count}");
    assert_eq!(c.format_singular, "{count}");
    assert_eq!(c.format_up_to_date, "{count}");
    assert!(c.critical_updates_regex.is_none());
}

#[test]
fn construct_rejects_unknown_key() {
    let r = new_formatter("str", &[arg("bogus", "1")]);
    assert!(matches!(r, Err(ConfigError::UnknownArg(_))));
}

#[test]
fn construct_rejects_inverted_widths() {
    let r = new_formatter("str", &[arg("min_width", "5"), arg("max_width", "2")]);
    assert!(matches!(r, Err(ConfigError::InvalidWidths)));
}

#[test]
fn construct_rejects_unknown_formatter() {
    let r = new_formatter("nope", &[]);
    match r {
        Err(ConfigError::UnknownFormatter(name)) => assert_eq!(name, "nope"),
        _ => panic!("expected an unknown-formatter error"),
    }
}

#[test]
fn construct_rejects_bad_value_and_tiny_interval() {
    assert!(matches!(
        new_formatter("str", &[arg("min_width", "abc")]),
        Err(ConfigError::BadValue(_))
    ));
    assert!(matches!(
        new_formatter("str", &[arg("rot_interval", "0.05")]),
        Err(ConfigError::RotIntervalTooSmall)
    ));
    assert!(matches!(
        new_formatter("eng", &[arg("width", "-3")]),
        Err(ConfigError::BadValue(_))
    ));
    assert!(matches!(
        new_formatter("bar", &[arg("speed", "1")]),
        Err(ConfigError::UnknownArg(_))
    ));
}

#[test]
fn str_escapes_markup() {
    let f = plain_str_formatter(0, usize::MAX, false);
    let out = f.format(&Value::Text(String::from("a<b"))).unwrap();
    assert_eq!(out, "a&lt;b");
    let out2 = f.format(&Value::Text(String::from("x&y>z"))).unwrap();
    assert_eq!(out2, "x&amp;y&gt;z");
}

#[test]
fn str_pango_passes_markup_through() {
    let f = plain_str_formatter(0, usize::MAX, true);
    let out = f.format(&Value::Text(String::from("a<b"))).unwrap();
    assert_eq!(out, "a<b");
}

#[test]
fn str_pads_and_truncates() {
    let f = plain_str_formatter(5, usize::MAX, false);
    assert_eq!(f.format(&Value::Text(String::from("ab"))).unwrap(), "ab   ");
    let g = plain_str_formatter(0, 3, false);
    assert_eq!(g.format(&Value::Text(String::from("abcdef"))).unwrap(), "abc");
}

#[test]
fn str_rejects_numbers_and_flags() {
    let f = plain_str_formatter(0, usize::MAX, false);
    let n = Value::Number { val: Fixed::from_i64(1), unit: Unit::NoUnit };
    assert_eq!(f.format(&n), Err(FormatError::TypeMismatch));
    assert_eq!(f.format(&Value::Flag), Err(FormatError::TypeMismatch));
}

#[test]
fn icon_is_never_escaped() {
    let f = plain_str_formatter(0, 2, false);
    let out = f.format(&Value::Icon(String::from("<icon>"))).unwrap();
    assert_eq!(out, "<icon>");
}

#[test]
fn str_rotation_scrolls_with_time() {
    let f = StrFormatter {
        min_width: 0,
        max_width: 5,
        pango: false,
        rot_interval_ms: Some(100),
        init_time: Some(std::time::Instant::now()),
    };
    let text = Value::Text(String::from("abcdefgh"));
    assert_eq!(f.format_at(&text, 0).unwrap(), "abcde");
    assert_eq!(f.format_at(&text, 300).unwrap(), "defgh");
    assert_eq!(f.format_at(&text, 600).unwrap(), "gh|ab");
    assert_eq!(f.format_at(&text, 800).unwrap(), "|abcd");
    // a full cycle later the window is back at the start
    assert_eq!(f.format_at(&text, 900).unwrap(), "abcde");
    assert_eq!(f.interval(), Some(100));
}

#[test]
fn str_interval_reports_rotation() {
    let f = plain_str_formatter(0, 5, false);
    assert_eq!(f.interval(), None);
}

#[test]
fn bar_renders_half_fill() {
    let f = BarFormatter { width: 5, max_value: Fixed::from_i64(100) };
    let v = Value::Number { val: Fixed::from_i64(50), unit: Unit::NoUnit };
    assert_eq!(f.format(&v).unwrap(), "\u{2588}\u{2588}\u{258c}  ");
}

#[test]
fn bar_saturates_and_has_fixed_width() {
    let f = BarFormatter { width: 3, max_value: Fixed::from_i64(100) };
    let over = Value::Number { val: Fixed::from_i64(250), unit: Unit::NoUnit };
    assert_eq!(f.format(&over).unwrap(), "\u{2588}\u{2588}\u{2588}");
    let under = Value::Number { val: Fixed::from_i64(-10), unit: Unit::NoUnit };
    assert_eq!(f.format(&under).unwrap(), "   ");
    assert_eq!(f.format(&Value::Text(String::from("x"))), Err(FormatError::TypeMismatch));
}

#[test]
fn eng_formats_bytes_with_binary_prefix() {
    let h = new_formatter("eng", &[]).unwrap();
    let v = Value::Number { val: Fixed::from_i64(1536), unit: Unit::Bytes };
    assert_eq!(h.format(&v).unwrap(), " 1KiB");
    let wide = new_formatter("eng", &[arg("width", "3")]).unwrap();
    assert_eq!(wide.format(&v).unwrap(), "1.5KiB");
}

#[test]
fn eng_formats_plain_numbers() {
    let h = new_formatter("eng", &[]).unwrap();
    let v = Value::Number { val: Fixed::from_i64(12345), unit: Unit::NoUnit };
    assert_eq!(h.format(&v).unwrap(), "12K");
    let neg = Value::Number { val: Fixed::from_i64(-5), unit: Unit::NoUnit };
    assert_eq!(h.format(&neg).unwrap(), "-5");
    let small = Value::Number { val: parse_fixed("0.25").unwrap(), unit: Unit::NoUnit };
    assert_eq!(h.format(&small).unwrap(), "250m");
}

#[test]
fn eng_honors_display_flags() {
    let h = new_formatter(
        "eng",
        &[arg("width", "3"), arg("prefix_space", "true"), arg("unit_space", "true")],
    )
    .unwrap();
    let v = Value::Number { val: Fixed::from_i64(1536), unit: Unit::Bytes };
    assert_eq!(h.format(&v).unwrap(), "1.5 Ki B");
    let hidden = new_formatter("eng", &[arg("hide_unit", "true")]).unwrap();
    assert_eq!(hidden.format(&v).unwrap(), " 1Ki");
    let forced = new_formatter("eng", &[arg("prefix", "1"), arg("force_prefix", "true")])
        .unwrap();
    let small = Value::Number { val: Fixed::from_i64(2500), unit: Unit::NoUnit };
    assert_eq!(forced.format(&small).unwrap(), "2500");
}

#[test]
fn eng_converts_units_and_rejects_mismatch() {
    let to_bits = new_formatter("eng", &[arg("unit", "b"), arg("width", "3")]).unwrap();
    let v = Value::Number { val: Fixed::from_i64(2), unit: Unit::Bytes };
    assert_eq!(to_bits.format(&v).unwrap(), " 16b");
    let to_hertz = new_formatter("eng", &[arg("unit", "Hz")]).unwrap();
    assert_eq!(to_hertz.format(&v), Err(FormatError::UnitMismatch));
}

#[test]
fn unit_conversion_is_dimension_preserving() {
    let x = Fixed::from_i64(3);
    let direct = Unit::Bytes.convert(x, Unit::Bits).unwrap();
    let through = Unit::Bytes.convert(x, Unit::Bytes).unwrap();
    let chained = Unit::Bytes.convert(through, Unit::Bits).unwrap();
    assert_eq!(direct, chained);
    assert_eq!(direct, Fixed::from_i64(24));
    assert!(matches!(
        Unit::Percents.convert(x, Unit::Bytes),
        Err(FormatError::UnitMismatch)
    ));
}

#[test]
fn flag_formatter_yields_empty_string() {
    let f = FlagFormatter;
    assert_eq!(f.format(&Value::Flag).unwrap(), "");
    assert_eq!(f.interval(), None);
}

#[test]
fn fix_formatter_is_not_implemented() {
    let h = new_formatter("fix", &[]).unwrap();
    let v = Value::Number { val: Fixed::from_i64(1), unit: Unit::NoUnit };
    assert_eq!(h.format(&v), Err(FormatError::NotImplemented));
    assert_eq!(h.format(&Value::Flag), Err(FormatError::TypeMismatch));
}

#[test]
fn fix_and_eng_share_argument_surface() {
    let cfg = EngFixConfig::from_args(&[
        arg("w", "4"),
        arg("u", "B"),
        arg("p", "Ki"),
        arg("hide_prefix", "true"),
    ])
    .unwrap();
    assert_eq!(cfg.width, 4);
    let fx = FixFormatter(cfg);
    let v = Value::Number { val: Fixed::from_i64(9), unit: Unit::Bytes };
    assert_eq!(fx.format(&v), Err(FormatError::NotImplemented));
    let eng = EngFormatter(cfg);
    // the preferred prefix still scales the value; only its letter is hidden
    assert_eq!(eng.format(&v).unwrap(), "0.01B");
}

#[test]
fn handle_dispatches_and_reports_intervals() {
    let s = new_formatter("str", &[arg("rot_interval", "0.5"), arg("max_width", "2")])
        .unwrap();
    assert_eq!(s.interval(), Some(500));
    assert_eq!(s.format(&Value::Text(String::from("hi"))).unwrap(), "hi");
    let b = new_formatter("bar", &[arg("w", "1")]).unwrap();
    assert_eq!(b.interval(), None);
    match b {
        FormatterHandle::Bar(bar) => assert_eq!(bar.width, 1),
        _ => panic!("expected the bar formatter"),
    }
}

#[test]
fn duplicate_keys_last_one_wins() {
    let h = new_formatter("bar", &[arg("width", "7"), arg("width", "2")]).unwrap();
    match h {
        FormatterHandle::Bar(bar) => assert_eq!(bar.width, 2),
        _ => panic!("expected the bar formatter"),
    }
}

#[test]
fn value_parsers_accept_exact_shapes() {
    assert_eq!(parse_usize("42"), Some(42));
    assert_eq!(parse_usize("+7"), Some(7));
    assert_eq!(parse_usize(""), None);
    assert_eq!(parse_usize("4x"), None);
    assert_eq!(parse_bool("true"), Some(true));
    assert_eq!(parse_bool("false"), Some(false));
    assert_eq!(parse_bool("yes"), None);
    assert_eq!(parse_fixed("1.5").unwrap().units, 1_500_000_000);
    assert_eq!(parse_fixed("-0.25").unwrap().units, -250_000_000);
    assert_eq!(parse_fixed("100").unwrap().units, 100_000_000_000);
    assert!(parse_fixed("1.").is_none());
    assert!(parse_fixed("one").is_none());
}
