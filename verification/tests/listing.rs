use airfoil_catalog::dat::{collect_matches, record_name, scan_line, scan_lines};
use std::path::Path;

fn pair(a: &str, b: &str) -> Option<(String, String)> {
    Some((a.to_string(), b.to_string()))
}

#[test]
fn line_with_two_decimal_numbers_holds_a_point() {
    assert_eq!(scan_line("0.5000  0.0123"), pair("0.5000", "0.0123"));
    assert_eq!(scan_line("  1.000000 -0.001260"), pair("1.000000", "-0.001260"));
    assert_eq!(scan_line("\t+.5\t-.25"), pair("+.5", "-.25"));
    assert_eq!(scan_line("0.1 0.2 0.3"), pair("0.1", "0.2"));
    assert_eq!(scan_line("point 12.5 7.25 end"), pair("12.5", "7.25"));
}

#[test]
fn line_without_two_decimal_numbers_is_passed_over() {
    assert_eq!(scan_line(""), None);
    assert_eq!(scan_line("NACA 0012 AIRFOIL"), None);
    assert_eq!(scan_line("1 2"), None);
    assert_eq!(scan_line("0.5"), None);
    assert_eq!(scan_line("0.5,0.25"), None);
    assert_eq!(scan_line("1. 2."), None);
}

#[test]
fn scanned_line_is_not_handed_back_whole() {
    let line = "   0.25    0.125   ";
    let found = scan_line(line).unwrap();
    assert_ne!(found.0, line);
    assert_eq!(found, ("0.25".to_string(), "0.125".to_string()));
}

#[test]
fn listing_keeps_its_points_in_order() {
    let lines: Vec<String> = [
        "AG08",
        "",
        " 1.000000  0.000000",
        " 0.500000  0.041000",
        "  -- lower --",
        " 0.000000  0.000000",
        " 0.500000 -0.012000",
    ]
    .iter()
    .map(|s| s.to_string())
    .collect();
    let pairs = scan_lines(&lines);
    assert_eq!(
        pairs,
        vec![
            ("1.000000".to_string(), "0.000000".to_string()),
            ("0.500000".to_string(), "0.041000".to_string()),
            ("0.000000".to_string(), "0.000000".to_string()),
            ("0.500000".to_string(), "-0.012000".to_string()),
        ]
    );
    assert_eq!(scan_lines(&Vec::new()), Vec::new());
}

#[test]
fn matches_are_kept_and_misses_dropped() {
    let found = vec![None, pair("1.0", "2.0"), None, None, pair("3.0", "4.0")];
    assert_eq!(
        collect_matches(&found),
        vec![
            ("1.0".to_string(), "2.0".to_string()),
            ("3.0".to_string(), "4.0".to_string())
        ]
    );
    assert_eq!(collect_matches(&vec![None, None]), Vec::new());
}

#[test]
fn record_is_named_after_its_file() {
    assert_eq!(record_name("SB95 10,5-2.dat"), "SB95 10,5-2");
    assert_eq!(record_name("ag08.dat"), "ag08");
    assert_eq!(record_name("data/foils/ag08.dat"), "ag08");
    assert_eq!(record_name("/abs/dir.d/naca0012"), "naca0012");
    assert_eq!(record_name("archive.tar.gz"), "archive.tar");
    assert_eq!(record_name(".hidden"), ".hidden");
    assert_eq!(record_name("dir/.hidden.dat"), ".hidden");
    assert_eq!(record_name("name."), "name");
    assert_eq!(record_name(""), "");
    assert_eq!(record_name("é/ü.dat"), "ü");
}

#[test]
fn record_name_agrees_with_the_file_stem() {
    for path in [
        "SB95 10,5-2.dat",
        "ag08.dat",
        "a/b/c.txt",
        "/root/x.y.z",
        "plain",
        ".profile",
        "dir.with.dots/file",
        "dir/sub/.conf.bak",
        "trailing.",
    ] {
        let stem = Path::new(path)
            .file_stem()
            .unwrap_or_default()
            .to_string_lossy()
            .to_string();
        assert_eq!(record_name(path), stem, "{}", path);
    }
}
