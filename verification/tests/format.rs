use watt::collect::memory::format_bytes;
use watt::text::parse_u32;
use watt::ui::header::format_uptime;

fn float_formatted(bytes: u64) -> String {
    const KIB: u64 = 1024;
    const MIB: u64 = KIB * 1024;
    const GIB: u64 = MIB * 1024;
    if bytes >= GIB {
        format!("{:.1}G", bytes as f64 / GIB as f64)
    } else if bytes >= MIB {
        format!("{:.0}M", bytes as f64 / MIB as f64)
    } else if bytes >= KIB {
        format!("{:.0}K", bytes as f64 / KIB as f64)
    } else {
        format!("{}B", bytes)
    }
}

#[test]
fn format_bytes_units() {
    assert_eq!(format_bytes(0), "0B");
    assert_eq!(format_bytes(1023), "1023B");
    assert_eq!(format_bytes(1024), "1K");
    assert_eq!(format_bytes(10 * 1024), "10K");
    assert_eq!(format_bytes(1024 * 1024), "1M");
    assert_eq!(format_bytes(512 * 1024 * 1024), "512M");
    assert_eq!(format_bytes(1024 * 1024 * 1024), "1.0G");
    assert_eq!(format_bytes(3 * 1024 * 1024 * 1024 / 2), "1.5G");
    assert_eq!(format_bytes(32 * 1024 * 1024 * 1024), "32.0G");
}

#[test]
fn format_bytes_rounds_ties_to_even() {
    // 1.5K and 2.5K are exact ties
    assert_eq!(format_bytes(1536), "2K");
    assert_eq!(format_bytes(2560), "2K");
    assert_eq!(format_bytes(3584), "4K");
    // just above and below a tie
    assert_eq!(format_bytes(2561), "3K");
    assert_eq!(format_bytes(2559), "2K");
    // mebibytes round the same way
    assert_eq!(format_bytes(5 * 1024 * 1024 / 2), "2M");
    // almost a gibibyte in mebibytes
    assert_eq!(format_bytes(1024 * 1024 * 1024 - 1), "1024M");
}

#[test]
fn format_bytes_matches_float_formatting() {
    let mut samples: Vec<u64> = vec![
        0,
        1,
        1023,
        1024,
        1025,
        1535,
        1536,
        1537,
        2560,
        1048575,
        1048576,
        1572864,
        2621440,
        1073741823,
        1073741824,
        1127428915,
        1181116006,
        1234803098,
        19_200_000_000,
        34_359_738_368,
        9_007_199_254_740_991,
        9_007_199_254_740_992,
        9_007_199_254_740_993,
        9_007_199_254_740_995,
        18_014_398_509_481_985,
        u64::MAX / 3,
        u64::MAX - 1024,
        u64::MAX,
    ];
    let mut x: u64 = 0x9E37_79B9_7F4A_7C15;
    for _ in 0..2000 {
        x ^= x << 13;
        x ^= x >> 7;
        x ^= x << 17;
        samples.push(x >> (x % 64));
    }
    for k in 0..200u64 {
        // tenths of a gibibyte on and around exact ties
        samples.push(1073741824 + k * 53687091);
        samples.push(1073741824 * 3 + k * 107374182 + 53687091);
    }
    for b in samples {
        assert_eq!(format_bytes(b), float_formatted(b), "bytes = {b}");
    }
}

#[test]
fn uptime_renders_hours_and_two_digit_minutes() {
    assert_eq!(format_uptime(0), "up 0h00m");
    assert_eq!(format_uptime(59), "up 0h00m");
    assert_eq!(format_uptime(60), "up 0h01m");
    assert_eq!(format_uptime(4 * 3600 + 32 * 60 + 10), "up 4h32m");
    assert_eq!(format_uptime(100 * 3600 + 7 * 60), "up 100h07m");
}

#[test]
fn parse_u32_agrees_with_str_parse() {
    let cases = [
        "", "0", "7", "+7", "++7", "-1", "42", "007", "4294967295", "4294967296", "99999999999",
        " 1", "1 ", "1a", "a1", "+", "12345", "٣", "+0",
    ];
    for s in cases {
        assert_eq!(parse_u32(s), s.parse::<u32>().ok(), "input {s:?}");
    }
}
