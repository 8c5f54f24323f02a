use panicatorul::analysis::LineStatus;
use panicatorul::driver::{
    artifact_path, command_line, do_init, toolchain_supported, REQUIRED_MAJOR_VERSION,
};
use panicatorul::ir::Version;
use panicatorul::report::{
    append_dec, append_percent, band, band_class, gen_file, gen_line, out_name, summarize, Band,
};

#[test]
fn summary_of_ten_lines_with_two_panics() {
    // 10 observed lines, exactly 2 Panic: 80.00% clean, banded good.
    let mut lines = vec![LineStatus::NotInBinary; 10];
    lines[3] = LineStatus::Panic;
    lines[7] = LineStatus::Panic;
    lines[5] = LineStatus::NoPanic;
    let s = summarize(&lines);
    assert_eq!(s.total_lines, 10);
    assert_eq!(s.clean_lines, 8);
    assert_eq!(s.percent_hundredths, 8000);
    assert_eq!(band(s.clean_lines, s.total_lines), Band::Good);
}

#[test]
fn band_boundaries_are_inclusive() {
    assert_eq!(band(8, 10), Band::Good);
    assert_eq!(band(79, 100), Band::Warning);
    assert_eq!(band(1, 2), Band::Warning);
    assert_eq!(band(49, 100), Band::Bad);
    assert_eq!(band(0, 1), Band::Bad);
    assert_eq!(band(0, 0), Band::Bad);
    assert_eq!(band(10, 10), Band::Good);
}

#[test]
fn summary_of_empty_table() {
    let lines: Vec<LineStatus> = vec![];
    let s = summarize(&lines);
    assert_eq!(s.total_lines, 0);
    assert_eq!(s.clean_lines, 0);
    assert_eq!(s.percent_hundredths, 0);
}

#[test]
fn percent_is_truncated_to_hundredths() {
    let mut lines = vec![LineStatus::NoPanic; 3];
    lines[0] = LineStatus::Panic;
    let s = summarize(&lines);
    // 2/3 = 66.66..%
    assert_eq!(s.percent_hundredths, 6666);
}

#[test]
fn decimal_rendering() {
    let mut s = String::new();
    append_dec(&mut s, 0);
    assert_eq!(s, "0");
    let mut s = String::new();
    append_dec(&mut s, 90210);
    assert_eq!(s, "90210");
    let mut s = String::from("x=");
    append_dec(&mut s, 7);
    assert_eq!(s, "x=7");
}

#[test]
fn percent_rendering() {
    let mut s = String::new();
    append_percent(&mut s, 8000);
    assert_eq!(s, "80.00");
    let mut s = String::new();
    append_percent(&mut s, 6666);
    assert_eq!(s, "66.66");
    let mut s = String::new();
    append_percent(&mut s, 10000);
    assert_eq!(s, "100.00");
    let mut s = String::new();
    append_percent(&mut s, 5);
    assert_eq!(s, "0.05");
}

#[test]
fn one_rendered_line() {
    let mut out = String::new();
    gen_line(&mut out, 7, "let x = 1;", LineStatus::NoPanic);
    let expected = "\n<div class=\"columns p-0 m-0\" role=\"row\">\n    <div class=\"column is-1 is-narrow p-0 has-text-centered\" id=\"7\" role=\"cell\">\n        <a href=\"#7\">7</a>\n    </div>\n    <div class=\"column has-background-success-light p-0\" role=\"cell\">\n        <pre class=\"has-background-success-light py-0 px-2\">let x = 1;</pre>\n    </div>\n</div>";
    assert_eq!(out, expected);
}

#[test]
fn rendered_line_backgrounds() {
    let mut a = String::new();
    gen_line(&mut a, 1, "", LineStatus::NotInBinary);
    assert!(a.contains("has-background-light"));
    let mut b = String::new();
    gen_line(&mut b, 1, "", LineStatus::Panic);
    assert!(b.contains("has-background-danger-light"));
}

#[test]
fn rendered_file_report() {
    let source: Vec<String> = vec![
        "fn main() {".to_string(),
        "    helper();".to_string(),
        "}".to_string(),
        "".to_string(),
    ];
    // Table covering lines 1..=2 (index 0 reserved); lines 3 and 4 unobserved.
    let status = vec![
        LineStatus::NotInBinary,
        LineStatus::NoPanic,
        LineStatus::Panic,
    ];
    let mut out = String::new();
    gen_file(&mut out, "pkg\\src\\main.rs", &source, &status);
    assert!(out.starts_with("\n<!DOCTYPE html>"));
    assert!(out.ends_with("\n</body>\n</html>\n"));
    assert!(out.contains("<title>pkg\\src\\main.rs</title>"));
    // 3 observed lines, 1 panic: 66.66% clean, warning band.
    assert!(out.contains("66.66% (2 / 3)"));
    assert!(out.contains("has-text-warning"));
    // one row per source line, numbered from 1
    assert!(out.contains("<a href=\"#1\">1</a>"));
    assert!(out.contains("<a href=\"#4\">4</a>"));
    assert!(!out.contains("<a href=\"#5\">5</a>"));
    assert!(out.contains("fn main() {"));
    // line 2 carries the panic background; line 3 is past the table
    assert!(out.contains("has-background-danger-light"));
    assert!(out.contains("has-background-light"));
}

#[test]
fn report_output_name() {
    assert_eq!(out_name("pkg\\src\\main.rs"), "pkg_src_main_rs.html");
    assert_eq!(out_name("plain"), "plain.html");
    assert_eq!(out_name(""), ".html");
}

#[test]
fn band_classes() {
    assert_eq!(band_class(Band::Good), "has-text-success");
    assert_eq!(band_class(Band::Warning), "has-text-warning");
    assert_eq!(band_class(Band::Bad), "has-text-danger");
}

#[test]
fn expected_artifact_path() {
    assert_eq!(
        artifact_path("x86_64-pc-windows-msvc", "release", "pkg"),
        "target/x86_64-pc-windows-msvc/release/deps/pkg.bc"
    );
}

#[test]
fn toolchain_version_gate() {
    assert_eq!(REQUIRED_MAJOR_VERSION, 17);
    assert!(toolchain_supported(&Version { major: 17, minor: 0, patch: 6 }));
    assert!(!toolchain_supported(&Version { major: 16, minor: 0, patch: 0 }));
    assert!(!toolchain_supported(&Version { major: 18, minor: 1, patch: 0 }));
}

#[test]
fn init_build_commands() {
    let cmds = do_init("pkg", "release", "x86_64-pc-windows-msvc");
    assert_eq!(cmds.len(), 2);
    assert_eq!(cmds[0], vec!["rustup", "install", "nightly-2023-09-17"]);
    assert_eq!(
        cmds[1],
        vec![
            "rustup",
            "run",
            "nightly-2023-09-17",
            "cargo",
            "rustc",
            "-p",
            "pkg",
            "--profile",
            "release",
            "-Z",
            "build-std=std,core,panic_abort",
            "--target",
            "x86_64-pc-windows-msvc",
            "--",
            "--emit",
            "llvm-bc",
        ]
    );
}

#[test]
fn command_log_line() {
    let args = vec!["ls".to_string(), "-l".to_string()];
    assert_eq!(command_line(&args), "Running command: ls -l ");
    let none: Vec<String> = vec![];
    assert_eq!(command_line(&none), "Running command: ");
}
