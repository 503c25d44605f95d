use proxmox_imgctl::size::{parse_size, SizeError, SizeMb};

fn ok(s: &str, mb: u32) {
    assert_eq!(s.parse::<SizeMb>().unwrap().mb(), mb, "input: {s}");
}

#[test]
fn parses_plain_number_as_mb() {
    ok("1024", 1024);
    ok(" 2048 ", 2048);
}

#[test]
fn parses_suffixes() {
    ok("512M", 512);
    ok("512MB", 512);
    ok("512MiB", 512);
    ok("2G", 2048);
    ok("2gb", 2048);
    ok("2 gib", 2048);
    ok("1T", 1024 * 1024);
}

#[test]
fn parses_fractional() {
    ok("1.5G", 1536);
}

#[test]
fn rejects_garbage() {
    assert!("".parse::<SizeMb>().is_err());
    assert!("G".parse::<SizeMb>().is_err());
    assert!("-1G".parse::<SizeMb>().is_err());
    assert!("1X".parse::<SizeMb>().is_err());
    assert!("0M".parse::<SizeMb>().is_err());
}

#[test]
fn rejects_sub_mb_even_when_rounding_would_lift_it() {
    // 0.5M is below the minimum; it must not silently round up to 1M.
    assert!("0.5M".parse::<SizeMb>().is_err());
    assert!("0.4M".parse::<SizeMb>().is_err());
}

#[test]
fn rejects_non_integral_mb() {
    // `1.4G` is 1433.6 MB: no whole-MB representation; reject rather than round.
    assert!("1.4G".parse::<SizeMb>().is_err());
    assert!("1.5M".parse::<SizeMb>().is_err());
    assert!("2.7G".parse::<SizeMb>().is_err());
}

#[test]
fn display_picks_largest_clean_unit() {
    assert_eq!(SizeMb(512).to_string(), "512M");
    assert_eq!(SizeMb(2048).to_string(), "2G");
    assert_eq!(SizeMb(1024 * 1024).to_string(), "1T");
    assert_eq!(SizeMb(1500).to_string(), "1500M");
}

#[test]
fn each_error_has_its_input() {
    assert_eq!(parse_size("   "), Err(SizeError::Empty));
    assert_eq!(parse_size("G"), Err(SizeError::NotANumber));
    assert_eq!(parse_size("1.2.3G"), Err(SizeError::NotANumber));
    assert_eq!(parse_size("."), Err(SizeError::NotANumber));
    assert_eq!(parse_size("-1G"), Err(SizeError::Negative));
    assert_eq!(parse_size("1X"), Err(SizeError::UnknownUnit));
    assert_eq!(parse_size("1 KB"), Err(SizeError::UnknownUnit));
    assert_eq!(parse_size("0M"), Err(SizeError::TooSmall));
    assert_eq!(parse_size("-0"), Err(SizeError::TooSmall));
    assert_eq!(parse_size("4096T"), Err(SizeError::TooLarge));
    assert_eq!(parse_size("4294967295.5"), Err(SizeError::TooLarge));
    assert_eq!(parse_size("1.4G"), Err(SizeError::NotWhole));
}

#[test]
fn accepts_the_edges_of_the_range() {
    assert_eq!(parse_size("1"), Ok(SizeMb(1)));
    assert_eq!(parse_size("4294967295"), Ok(SizeMb(u32::MAX)));
    assert_eq!(parse_size("4095.99999904632568359375T").map(|s| s.mb()), Ok(4294967295));
    assert_eq!(parse_size("+.5G"), Ok(SizeMb(512)));
    assert_eq!(parse_size("3."), Ok(SizeMb(3)));
    assert_eq!(parse_size("0001.25G"), Ok(SizeMb(1280)));
    assert_eq!(parse_size("\t2\u{a0}TiB\n"), Ok(SizeMb(2 * 1024 * 1024)));
    assert_eq!(parse_size("0.0009765625G"), Ok(SizeMb(1)));
    assert_eq!(parse_size("0.00097656249G"), Err(SizeError::TooSmall));
}

#[test]
fn display_then_parse_gives_the_size_back() {
    for mb in [1u32, 7, 1023, 1024, 1025, 3 * 1024, 1024 * 1024, 5 * 1024 * 1024, u32::MAX] {
        let text = SizeMb(mb).to_string();
        assert_eq!(parse_size(&text), Ok(SizeMb(mb)), "text: {text}");
    }
}
