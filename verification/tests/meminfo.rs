use cpu_load_simulator::meminfo::{parse_mem_total_mb, FALLBACK_TOTAL_MEMORY_MB};

#[test]
fn reads_mem_total_in_mebibytes() {
    let text = "MemTotal:       16303368 kB\nMemFree:         1234567 kB\nMemAvailable:    9876543 kB\n";
    assert_eq!(parse_mem_total_mb(text), Some(16303368 / 1024));
}

#[test]
fn reads_the_first_mem_total_line() {
    let text = "MemFree: 1 kB\nMemTotal: 2048 kB\nMemTotal: 4096 kB\n";
    assert_eq!(parse_mem_total_mb(text), Some(2));
}

#[test]
fn missing_line_gives_none() {
    assert_eq!(parse_mem_total_mb("MemFree: 1 kB\n"), None);
    assert_eq!(parse_mem_total_mb(""), None);
    assert_eq!(parse_mem_total_mb(" MemTotal: 2048 kB\n"), None);
}

#[test]
fn bad_field_gives_none() {
    assert_eq!(parse_mem_total_mb("MemTotal:\n"), None);
    assert_eq!(parse_mem_total_mb("MemTotal: abc kB\n"), None);
    assert_eq!(parse_mem_total_mb("MemTotal: -5 kB\n"), None);
    assert_eq!(parse_mem_total_mb("MemTotal:2048 kB\n"), None);
    assert_eq!(parse_mem_total_mb("MemTotal: 18446744073709551616 kB\n"), None);
    assert_eq!(parse_mem_total_mb("MemTotal: + kB\n"), None);
}

#[test]
fn field_forms_that_u64_accepts() {
    assert_eq!(parse_mem_total_mb("MemTotal: +2048 kB"), Some(2));
    assert_eq!(parse_mem_total_mb("MemTotal:\t3072\r\n"), Some(3));
    assert_eq!(parse_mem_total_mb("MemTotal: 18446744073709551615 kB"), Some(18446744073709551615 / 1024));
    assert_eq!(parse_mem_total_mb("MemTotal:\u{3000}1024"), Some(1));
    assert_eq!(parse_mem_total_mb("MemTotal: 1023 kB"), Some(0));
}

#[test]
fn agrees_with_std_parsing() {
    let texts = [
        "MemTotal:       8000000 kB\n",
        "x\r\nMemTotal:  77 kB\r\n",
        "MemTotal:\u{a0}99999",
        "MemTotalX 5 6\nMemTotal: 5 6\n",
    ];
    for text in texts {
        let expected = text
            .lines()
            .find(|line| line.starts_with("MemTotal:"))
            .and_then(|line| line.split_whitespace().nth(1))
            .and_then(|kb| kb.parse::<u64>().ok())
            .map(|kb| kb / 1024);
        assert_eq!(parse_mem_total_mb(text), expected, "{:?}", text);
    }
}

#[test]
fn fallback_is_24_gib() {
    assert_eq!(FALLBACK_TOTAL_MEMORY_MB, 24 * 1024);
}
