//! Per-file aggregation and the data side of report rendering: line
//! counts, the clean percentage in exact hundredths, presentation banding,
//! and the rendered report text, all pinned down character by character.

use crate::analysis::LineStatus;
use crate::model::strings_view;
use vstd::prelude::*;

verus! {

/// The presentation band of a file's clean percentage.
#[derive(Clone, Copy, Debug, PartialEq, Eq, Structural)]
pub enum Band {
    /// At least 80 percent of the lines are clean.
    Good,
    /// At least 50 and under 80 percent of the lines are clean.
    Warning,
    /// Under 50 percent of the lines are clean.
    Bad,
}

/// How many lines of a table carry panic evidence.
pub open spec fn spec_count_panic(status: Seq<LineStatus>) -> nat
    decreases status.len(),
{
    if status.len() == 0 {
        0
    } else {
        spec_count_panic(status.drop_last()) + if status.last() is Panic {
            1nat
        } else {
            0nat
        }
    }
}

/// At most every line of a table carries panic evidence.
pub proof fn lemma_count_panic_le(status: Seq<LineStatus>)
    ensures
        spec_count_panic(status) <= status.len(),
    decreases status.len(),
{
    if status.len() > 0 {
        lemma_count_panic_le(status.drop_last());
    }
}

/// How many lines of a table are clean: every line without panic evidence
/// counts, those not observed in the binary included.
pub open spec fn spec_clean(status: Seq<LineStatus>) -> nat {
    (status.len() - spec_count_panic(status)) as nat
}

/// The clean percentage in hundredths of a percent, rounded toward zero;
/// 0 for an empty table.
pub open spec fn spec_hundredths(status: Seq<LineStatus>) -> int {
    if status.len() == 0 {
        0
    } else {
        (spec_clean(status) * 10000) as int / status.len() as int
    }
}

/// The presentation band of `clean` clean lines out of `total`: the exact
/// comparisons clean/total >= 80% and >= 50%, inclusive on the lower bound
/// of each band; an empty table falls in the lowest band.
pub open spec fn spec_band(clean: nat, total: nat) -> Band {
    if total == 0 {
        Band::Bad
    } else if clean * 5 >= total * 4 {
        Band::Good
    } else if clean * 2 >= total {
        Band::Warning
    } else {
        Band::Bad
    }
}

/// The band of a line table.
pub open spec fn spec_band_of(status: Seq<LineStatus>) -> Band {
    spec_band(spec_clean(status), status.len())
}

/// Per-file summary: total observed lines, clean lines, and the clean
/// percentage in hundredths of a percent.
pub struct Summary {
    pub total_lines: usize,
    pub clean_lines: usize,
    pub percent_hundredths: u64,
}

/// Aggregates one file's line table: every line not marked Panic counts as
/// clean, and the clean percentage is reported exactly, in hundredths.
pub fn summarize(lines_status: &Vec<LineStatus>) -> (s: Summary)
    ensures
        s.total_lines == lines_status@.len(),
        s.clean_lines as nat == spec_clean(lines_status@),
        s.percent_hundredths as int == spec_hundredths(lines_status@),
{
    let total = lines_status.len();
    let mut panics: usize = 0;
    let mut j: usize = 0;
    while j < total
        invariant
            0 <= j <= total,
            total == lines_status@.len(),
            panics as nat == spec_count_panic(lines_status@.take(j as int)),
            panics <= j,
        decreases total - j,
    {
        proof {
            lemma_count_panic_le(lines_status@.take(j as int));
            assert(lines_status@.take(j as int + 1).drop_last() =~= lines_status@.take(j as int));
            assert(lines_status@.take(j as int + 1).last() == lines_status@[j as int]);
        }
        let hit = match lines_status[j] {
            LineStatus::Panic => true,
            _ => false,
        };
        if hit {
            panics += 1;
        }
        j += 1;
    }
    proof {
        assert(lines_status@.take(total as int) =~= lines_status@);
        lemma_count_panic_le(lines_status@);
    }
    let clean = total - panics;
    let hundredths: u64 = if total == 0 {
        0
    } else {
        proof {
            assert((clean as int * 10000) / (total as int) <= 10000) by (nonlinear_arith)
                requires
                    0 < total as int,
                    0 <= clean as int <= total as int,
            ;
        }
        ((clean as u128) * 10000 / (total as u128)) as u64
    };
    Summary { total_lines: total, clean_lines: clean, percent_hundredths: hundredths }
}

/// The presentation band of `clean` clean lines out of `total`.
pub fn band(clean: usize, total: usize) -> (b: Band)
    ensures
        b == spec_band(clean as nat, total as nat),
{
    if total == 0 {
        Band::Bad
    } else if (clean as u128) * 5 >= (total as u128) * 4 {
        Band::Good
    } else if (clean as u128) * 2 >= (total as u128) {
        Band::Warning
    } else {
        Band::Bad
    }
}

/// Relies on String::push: appends exactly the one character.
#[verifier::external_body]
fn push_char(s: &mut String, c: char)
    ensures
        final(s)@ == old(s)@.push(c),
{
    s.push(c);
}

/// The character of one decimal digit.
pub open spec fn spec_digit(d: int) -> char {
    if d == 0 {
        '0'
    } else if d == 1 {
        '1'
    } else if d == 2 {
        '2'
    } else if d == 3 {
        '3'
    } else if d == 4 {
        '4'
    } else if d == 5 {
        '5'
    } else if d == 6 {
        '6'
    } else if d == 7 {
        '7'
    } else if d == 8 {
        '8'
    } else {
        '9'
    }
}

/// The decimal digits of a number, most significant first.
pub open spec fn spec_dec(n: int) -> Seq<char>
    decreases n,
{
    if n < 10 {
        seq![spec_digit(n)]
    } else {
        spec_dec(n / 10).push(spec_digit(n % 10))
    }
}

fn digit_char(d: u64) -> (c: char)
    requires
        d < 10,
    ensures
        c == spec_digit(d as int),
{
    match d {
        0 => '0',
        1 => '1',
        2 => '2',
        3 => '3',
        4 => '4',
        5 => '5',
        6 => '6',
        7 => '7',
        8 => '8',
        _ => '9',
    }
}

/// Appends the decimal digits of `n`.
pub fn append_dec(s: &mut String, n: u64)
    ensures
        final(s)@ == old(s)@ + spec_dec(n as int),
    decreases n,
{
    if n < 10 {
        push_char(s, digit_char(n));
        proof {
            assert(old(s)@.push(spec_digit(n as int)) =~= old(s)@ + spec_dec(n as int));
        }
    } else {
        append_dec(s, n / 10);
        push_char(s, digit_char(n % 10));
        proof {
            assert((old(s)@ + spec_dec(n as int / 10)).push(spec_digit(n as int % 10)) =~= old(s)@
                + spec_dec(n as int));
        }
    }
}

/// A percentage in hundredths shown with two decimal places.
pub open spec fn spec_percent_str(h: int) -> Seq<char> {
    spec_dec(h / 100) + "."@ + seq![spec_digit((h % 100) / 10), spec_digit(h % 10)]
}

/// Appends the percentage in hundredths as a two-decimal display value.
pub fn append_percent(s: &mut String, h: u64)
    ensures
        final(s)@ == old(s)@ + spec_percent_str(h as int),
{
    append_dec(s, h / 100);
    proof {
        reveal_strlit(".");
    }
    push_char(s, '.');
    push_char(s, digit_char((h % 100) / 10));
    push_char(s, digit_char(h % 10));
    proof {
        assert(s@ =~= old(s)@ + spec_percent_str(h as int));
    }
}

/// The background class a line's status is rendered with.
pub open spec fn background_class(status: LineStatus) -> Seq<char> {
    match status {
        LineStatus::NotInBinary => "has-background-light"@,
        LineStatus::NoPanic => "has-background-success-light"@,
        LineStatus::Panic => "has-background-danger-light"@,
    }
}

fn status_class(status: LineStatus) -> (c: &'static str)
    ensures
        c@ == background_class(status),
{
    match status {
        LineStatus::NotInBinary => "has-background-light",
        LineStatus::NoPanic => "has-background-success-light",
        LineStatus::Panic => "has-background-danger-light",
    }
}

/// The text class a file's band is rendered with.
pub open spec fn band_class_view(b: Band) -> Seq<char> {
    match b {
        Band::Good => "has-text-success"@,
        Band::Warning => "has-text-warning"@,
        Band::Bad => "has-text-danger"@,
    }
}

/// The text class of a presentation band.
pub fn band_class(b: Band) -> (c: &'static str)
    ensures
        c@ == band_class_view(b),
{
    match b {
        Band::Good => "has-text-success",
        Band::Warning => "has-text-warning",
        Band::Bad => "has-text-danger",
    }
}

/// The rendered row of one source line: its number (also the anchor), its
/// background class, and its text.
pub open spec fn line_html(index: int, background: Seq<char>, line: Seq<char>) -> Seq<char> {
    "\n<div class=\"columns p-0 m-0\" role=\"row\">\n    <div class=\"column is-1 is-narrow p-0 has-text-centered\" id=\""@
        + spec_dec(index) + "\" role=\"cell\">\n        <a href=\"#"@ + spec_dec(index) + "\">"@
        + spec_dec(index) + "</a>\n    </div>\n    <div class=\"column "@ + background
        + " p-0\" role=\"cell\">\n        <pre class=\""@ + background + " py-0 px-2\">"@ + line
        + "</pre>\n    </div>\n</div>"@
}

/// Renders one source line of the report: the line number (also its
/// anchor), a background class for its status, and the line's text.
pub fn gen_line(writer: &mut String, index: usize, line: &str, status: LineStatus)
    ensures
        final(writer)@ == old(writer)@ + line_html(
            index as int,
            background_class(status),
            line@,
        ),
{
    let background = status_class(status);
    writer.append(
        "\n<div class=\"columns p-0 m-0\" role=\"row\">\n    <div class=\"column is-1 is-narrow p-0 has-text-centered\" id=\"",
    );
    append_dec(writer, index as u64);
    writer.append("\" role=\"cell\">\n        <a href=\"#");
    append_dec(writer, index as u64);
    writer.append("\">");
    append_dec(writer, index as u64);
    writer.append("</a>\n    </div>\n    <div class=\"column ");
    writer.append(background);
    writer.append(" p-0\" role=\"cell\">\n        <pre class=\"");
    writer.append(background);
    writer.append(" py-0 px-2\">");
    writer.append(line);
    writer.append("</pre>\n    </div>\n</div>");
    proof {
        assert(writer@ =~= old(writer)@ + line_html(index as int, background_class(status), line@));
    }
}

/// The rendered heading of one file's report: its title and the summary
/// figures, banded.
pub open spec fn header_html(title: Seq<char>, status: Seq<LineStatus>) -> Seq<char> {
    "\n<!DOCTYPE html>\n<html lang=\"en-us\">\n\n<head>\n    <meta charset=\"utf-8\">\n    <meta name=\"viewport\" content=\"width=device-width, initial-scale=1\">\n    <title>"@
        + title
        + "</title>\n    <link rel=\"stylesheet\" href=\"https://cdn.jsdelivr.net/npm/bulma@0.9.1/css/bulma.min.css\">\n</head>\n\n<body>\n    <div class=\"container\">\n    <nav class=\"level\">\n        <div class=\"level-item has-text-centered\">\n            <div>\n                <p class=\"heading\">Lines</p>\n                <p class=\"title "@
        + band_class_view(spec_band_of(status)) + "\">\n                    "@ + spec_percent_str(
        spec_hundredths(status),
    ) + "% ("@ + spec_dec(spec_clean(status) as int) + " / "@ + spec_dec(status.len() as int)
        + ")\n                </p>\n            </div>\n        </div>\n    </nav>\n        "@
}

/// The status rendered for source line `k`: what the table records, or
/// `NotInBinary` past the table's end.
pub open spec fn status_at(status: Seq<LineStatus>, k: int) -> LineStatus {
    if 0 <= k < status.len() {
        status[k]
    } else {
        LineStatus::NotInBinary
    }
}

/// The rendered rows of source lines 1 up to (excluding) `k`.
pub open spec fn lines_html(src: Seq<Seq<char>>, status: Seq<LineStatus>, k: int) -> Seq<char>
    decreases k,
{
    if k <= 1 {
        Seq::empty()
    } else {
        lines_html(src, status, k - 1) + line_html(
            k - 1,
            background_class(status_at(status, k - 1)),
            src[k - 2],
        )
    }
}

/// One file's whole rendered report: heading, one row per source line, and
/// the closing markup.
pub open spec fn file_html(title: Seq<char>, src: Seq<Seq<char>>, status: Seq<LineStatus>) -> Seq<
    char,
> {
    header_html(title, status) + lines_html(src, status, src.len() as int + 1)
        + "\n</body>\n</html>\n"@
}

/// Renders one file's report: the summary heading, then one row for each
/// line of the file's source text with the status the analysis recorded
/// for it (lines past the table's end are not in the binary).
pub fn gen_file(
    writer: &mut String,
    input_file: &str,
    source_lines: &Vec<String>,
    lines_status: &Vec<LineStatus>,
)
    requires
        source_lines@.len() < usize::MAX,
    ensures
        final(writer)@ == old(writer)@ + file_html(
            input_file@,
            strings_view(source_lines@),
            lines_status@,
        ),
{
    let summary = summarize(lines_status);
    let the_band = band(summary.clean_lines, summary.total_lines);
    writer.append(
        "\n<!DOCTYPE html>\n<html lang=\"en-us\">\n\n<head>\n    <meta charset=\"utf-8\">\n    <meta name=\"viewport\" content=\"width=device-width, initial-scale=1\">\n    <title>",
    );
    writer.append(input_file);
    writer.append(
        "</title>\n    <link rel=\"stylesheet\" href=\"https://cdn.jsdelivr.net/npm/bulma@0.9.1/css/bulma.min.css\">\n</head>\n\n<body>\n    <div class=\"container\">\n    <nav class=\"level\">\n        <div class=\"level-item has-text-centered\">\n            <div>\n                <p class=\"heading\">Lines</p>\n                <p class=\"title ",
    );
    writer.append(band_class(the_band));
    writer.append("\">\n                    ");
    append_percent(writer, summary.percent_hundredths);
    writer.append("% (");
    append_dec(writer, summary.clean_lines as u64);
    writer.append(" / ");
    append_dec(writer, summary.total_lines as u64);
    writer.append(")\n                </p>\n            </div>\n        </div>\n    </nav>\n        ");
    let ghost base = old(writer)@ + header_html(input_file@, lines_status@);
    proof {
        assert(writer@ =~= base);
    }
    let ghost src_v = strings_view(source_lines@);
    let nsrc = source_lines.len();
    let mut k: usize = 1;
    while k <= nsrc
        invariant
            1 <= k <= nsrc + 1,
            nsrc == source_lines@.len(),
            nsrc < usize::MAX,
            src_v == strings_view(source_lines@),
            writer@ == base + lines_html(src_v, lines_status@, k as int),
        decreases nsrc + 1 - k,
    {
        let status = if k < lines_status.len() {
            lines_status[k]
        } else {
            LineStatus::NotInBinary
        };
        proof {
            assert(status == status_at(lines_status@, k as int));
            assert(src_v[k as int - 1] == source_lines@[k as int - 1]@);
        }
        gen_line(writer, k, source_lines[k - 1].as_str(), status);
        k += 1;
        proof {
            assert(writer@ =~= base + lines_html(src_v, lines_status@, k as int));
        }
    }
    writer.append("\n</body>\n</html>\n");
    proof {
        assert(writer@ =~= old(writer)@ + file_html(input_file@, src_v, lines_status@));
    }
}

/// A source-file name mapped to its report's base name: every path
/// separator and every dot replaced by an underscore.
pub open spec fn sanitized(s: Seq<char>) -> Seq<char> {
    s.map_values(
        |c: char|
            if c == '\\' || c == '.' {
                '_'
            } else {
                c
            },
    )
}

/// The output file name of one file's report: the sanitized source name
/// with the report extension appended.
pub fn out_name(name: &str) -> (r: String)
    ensures
        r@ == sanitized(name@) + ".html"@,
{
    let mut r = String::new();
    let n = name.unicode_len();
    let mut i: usize = 0;
    while i < n
        invariant
            0 <= i <= n,
            n == name@.len(),
            r@ == sanitized(name@.take(i as int)),
        decreases n - i,
    {
        let c = name.get_char(i);
        let mapped = if c == '\\' || c == '.' {
            '_'
        } else {
            c
        };
        push_char(&mut r, mapped);
        i += 1;
        proof {
            assert(r@ =~= sanitized(name@.take(i as int)));
        }
    }
    proof {
        assert(name@.take(n as int) =~= name@);
    }
    r.append(".html");
    r
}

} // verus!
