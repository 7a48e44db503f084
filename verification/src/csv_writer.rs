//! The CSV artifact: row encoding with quoting, the output file name
//! template, and the rotation state machine that starts a new file each
//! time the row threshold is reached.

use vstd::prelude::*;

use crate::text::{chars_to_string, dec_chars, digit_char, string_chars, two_digit_chars, u32_to_chars};
use crate::Row;

verus! {

/// Whether a CSV field must be quoted: it contains a comma, a quote or a
/// line break.
pub open spec fn needs_quote(s: Seq<char>) -> bool {
    exists|i: int|
        0 <= i < s.len() && (s[i] == ',' || s[i] == '"' || s[i] == '\n' || s[i] == '\r')
}

/// A field's characters with every quote doubled.
pub open spec fn escape_quotes(s: Seq<char>) -> Seq<char>
    decreases s.len(),
{
    if s.len() == 0 {
        Seq::empty()
    } else {
        escape_quotes(s.drop_last()) + (if s.last() == '"' {
            seq!['"', '"']
        } else {
            seq![s.last()]
        })
    }
}

/// One encoded CSV field: quoted with doubled quotes when necessary,
/// verbatim otherwise.
pub open spec fn csv_field(s: Seq<char>) -> Seq<char> {
    if needs_quote(s) {
        seq!['"'] + escape_quotes(s) + seq!['"']
    } else {
        s
    }
}

/// One encoded CSV record line: the three fields comma-separated, with a
/// trailing newline.
pub open spec fn csv_row_chars(findings: Seq<char>, filename: Seq<char>, path: Seq<char>) -> Seq<
    char,
> {
    csv_field(findings) + seq![','] + csv_field(filename) + seq![','] + csv_field(path) + seq![
        '\n',
    ]
}

/// Encodes one field into the output, quoting when necessary.
fn push_csv_field(out: &mut Vec<char>, field: &Vec<char>)
    ensures
        final(out)@ == old(out)@ + csv_field(field@),
{
    let mut quote = false;
    let mut i: usize = 0;
    while i < field.len()
        invariant
            i <= field@.len(),
            quote == needs_quote(field@.take(i as int)),
        decreases field@.len() - i,
    {
        let c = field[i];
        proof {
            assert(forall|j: int|
                0 <= j < i ==> field@.take(i + 1)[j] == field@.take(i as int)[j]);
            assert(field@.take(i + 1)[i as int] == field@[i as int]);
        }
        if c == ',' || c == '"' || c == '\n' || c == '\r' {
            quote = true;
        } else {
            proof {
                if needs_quote(field@.take(i + 1)) {
                    let j = choose|j: int|
                        0 <= j < i + 1 && (#[trigger] field@.take(i + 1)[j] == ','
                            || field@.take(i + 1)[j] == '"' || field@.take(i + 1)[j] == '\n'
                            || field@.take(i + 1)[j] == '\r');
                    assert(j < i || field@[i as int] == c);
                }
            }
        }
        i = i + 1;
    }
    proof {
        assert(field@.take(field@.len() as int) =~= field@);
    }
    if !quote {
        let mut k: usize = 0;
        let ghost base = out@;
        while k < field.len()
            invariant
                k <= field@.len(),
                out@ == base + field@.take(k as int),
            decreases field@.len() - k,
        {
            out.push(field[k]);
            proof {
                assert(out@ =~= base + field@.take(k + 1));
            }
            k = k + 1;
        }
        proof {
            assert(field@.take(field@.len() as int) =~= field@);
            assert(out@ =~= old(out)@ + csv_field(field@));
        }
    } else {
        let ghost base = out@;
        out.push('"');
        let mut k: usize = 0;
        while k < field.len()
            invariant
                k <= field@.len(),
                out@ == base + seq!['"'] + escape_quotes(field@.take(k as int)),
            decreases field@.len() - k,
        {
            let c = field[k];
            if c == '"' {
                out.push('"');
                out.push('"');
            } else {
                out.push(c);
            }
            proof {
                assert(field@.take(k + 1).drop_last() =~= field@.take(k as int));
                assert(out@ =~= base + seq!['"'] + escape_quotes(field@.take(k + 1)));
            }
            k = k + 1;
        }
        out.push('"');
        proof {
            assert(field@.take(field@.len() as int) =~= field@);
            assert(out@ =~= old(out)@ + csv_field(field@));
        }
    }
}

/// Serialises one finding record as a CSV line.
pub fn csv_row(row: &Row) -> (r: String)
    ensures
        r@ == csv_row_chars(row.findings@, row.filename@, row.path@),
{
    let f = string_chars(row.findings.as_str());
    let n = string_chars(row.filename.as_str());
    let p = string_chars(row.path.as_str());
    let mut out: Vec<char> = Vec::new();
    push_csv_field(&mut out, &f);
    out.push(',');
    push_csv_field(&mut out, &n);
    out.push(',');
    push_csv_field(&mut out, &p);
    out.push('\n');
    proof {
        assert(out@ =~= csv_row_chars(row.findings@, row.filename@, row.path@));
    }
    chars_to_string(&out)
}

/// The CSV header line.
pub fn csv_header() -> (r: String)
    ensures
        r@ == "findings,filename,path\n"@,
{
    "findings,filename,path\n".to_owned()
}

/// A root string made safe for a file name: backslashes, slashes and
/// colons stripped.
pub open spec fn sanitized_root(s: Seq<char>) -> Seq<char>
    decreases s.len(),
{
    if s.len() == 0 {
        Seq::empty()
    } else {
        sanitized_root(s.drop_last()) + (if s.last() == '\\' || s.last() == '/' || s.last()
            == ':' {
            Seq::empty()
        } else {
            seq![s.last()]
        })
    }
}

/// Strips path separators and colons from a root for use in a file name.
pub fn sanitize_root(root: &str) -> (r: Vec<char>)
    ensures
        r@ == sanitized_root(root@),
{
    let cs = string_chars(root);
    let mut r: Vec<char> = Vec::new();
    let mut i: usize = 0;
    while i < cs.len()
        invariant
            i <= cs@.len(),
            cs@ == root@,
            r@ == sanitized_root(root@.take(i as int)),
        decreases cs@.len() - i,
    {
        let c = cs[i];
        if !(c == '\\' || c == '/' || c == ':') {
            r.push(c);
        }
        proof {
            assert(root@.take(i + 1).drop_last() =~= root@.take(i as int));
            assert(r@ =~= sanitized_root(root@.take(i + 1)));
        }
        i = i + 1;
    }
    proof {
        assert(root@.take(root@.len() as int) =~= root@);
    }
    r
}

/// The artifact timestamp `HH-MM-SSutc_MDDYYYY` built from UTC clock
/// components.
pub open spec fn timestamp_chars(
    hour: u8,
    minute: u8,
    second: u8,
    month: u8,
    day: u8,
    year: u32,
) -> Seq<char> {
    seq![digit_char(hour as int / 10), digit_char(hour as int % 10), '-']
        + seq![digit_char(minute as int / 10), digit_char(minute as int % 10), '-']
        + seq![digit_char(second as int / 10), digit_char(second as int % 10)] + seq![
        'u',
        't',
        'c',
        '_',
    ] + dec_chars(month as nat) + dec_chars(day as nat) + dec_chars(year as nat)
}

/// Formats the artifact timestamp from UTC clock components.
pub fn make_timestamp(hour: u8, minute: u8, second: u8, month: u8, day: u8, year: u32) -> (r:
    String)
    requires
        hour < 24,
        minute < 60,
        second < 60,
    ensures
        r@ == timestamp_chars(hour, minute, second, month, day, year),
{
    let mut out: Vec<char> = Vec::new();
    let mut h = two_digit_chars(hour);
    out.append(&mut h);
    out.push('-');
    let mut mi = two_digit_chars(minute);
    out.append(&mut mi);
    out.push('-');
    let mut se = two_digit_chars(second);
    out.append(&mut se);
    out.push('u');
    out.push('t');
    out.push('c');
    out.push('_');
    let mut mo = u32_to_chars(month as u32);
    out.append(&mut mo);
    let mut d = u32_to_chars(day as u32);
    out.append(&mut d);
    let mut y = u32_to_chars(year);
    out.append(&mut y);
    proof {
        assert(out@ =~= timestamp_chars(hour, minute, second, month, day, year));
    }
    chars_to_string(&out)
}

/// The artifact file name `{dir}/{root}_{timestamp}_{suffix}.csv`.
pub open spec fn filename_chars(
    root: Seq<char>,
    timestamp: Seq<char>,
    dir: Seq<char>,
    suffix: u32,
) -> Seq<char> {
    dir + seq!['/'] + root + seq!['_'] + timestamp + seq!['_'] + dec_chars(suffix as nat) + seq![
        '.',
        'c',
        's',
        'v',
    ]
}

/// Builds the CSV artifact path for a sanitised root, a timestamp and a
/// rotation suffix.
pub fn update_filename(root: &String, timestamp: &String, file_path: &String, file_suffix: u32)
    -> (r: String)
    ensures
        r@ == filename_chars(root@, timestamp@, file_path@, file_suffix),
{
    let mut out = string_chars(file_path.as_str());
    out.push('/');
    let mut rc = string_chars(root.as_str());
    out.append(&mut rc);
    out.push('_');
    let mut tc = string_chars(timestamp.as_str());
    out.append(&mut tc);
    out.push('_');
    let mut sc = u32_to_chars(file_suffix);
    out.append(&mut sc);
    out.push('.');
    out.push('c');
    out.push('s');
    out.push('v');
    proof {
        assert(out@ =~= filename_chars(root@, timestamp@, file_path@, file_suffix));
    }
    chars_to_string(&out)
}

/// The writer's row counter after `n` records with threshold `m`: the
/// number of data rows in the file currently open.
pub open spec fn lines_after(n: nat, m: nat) -> nat
    decreases n,
{
    if n == 0 {
        0
    } else if lines_after((n - 1) as nat, m) == m {
        1
    } else {
        lines_after((n - 1) as nat, m) + 1
    }
}

/// The writer's file suffix after `n` records with threshold `m`: the
/// number of CSV files opened so far (at least the first).
pub open spec fn suffix_after(n: nat, m: nat) -> nat
    decreases n,
{
    if n == 0 {
        1
    } else if lines_after((n - 1) as nat, m) == m {
        suffix_after((n - 1) as nat, m) + 1
    } else {
        suffix_after((n - 1) as nat, m)
    }
}

/// The `k`-th record (1-based) lands in file `suffix_after(k)` as its row
/// `lines_after(k)`; the placement identity pins both down.
pub proof fn lemma_placement(n: nat, m: nat)
    requires
        m >= 1,
    ensures
        (suffix_after(n, m) - 1) * (m as int) + lines_after(n, m) == n,
        lines_after(n, m) <= m,
        n >= 1 ==> lines_after(n, m) >= 1,
        suffix_after(n, m) >= 1,
    decreases n,
{
    if n == 0 {
        assert((1 - 1) * (m as int) == 0) by (nonlinear_arith);
    } else {
        lemma_placement((n - 1) as nat, m);
        let s0 = suffix_after((n - 1) as nat, m) as int;
        let l0 = lines_after((n - 1) as nat, m) as int;
        if l0 == m {
            assert(suffix_after(n, m) == s0 + 1);
            assert(lines_after(n, m) == 1);
            assert((s0 + 1 - 1) * (m as int) == (s0 - 1) * (m as int) + (m as int))
                by (nonlinear_arith);
        } else {
            assert(suffix_after(n, m) == s0);
            assert(lines_after(n, m) == l0 + 1);
        }
    }
}

/// Every record lands in exactly one file and row: two distinct records
/// have distinct placements.
pub proof fn lemma_placement_unique(k1: nat, k2: nat, m: nat)
    requires
        m >= 1,
        k1 != k2,
    ensures
        suffix_after(k1, m) != suffix_after(k2, m) || lines_after(k1, m) != lines_after(k2, m),
{
    lemma_placement(k1, m);
    lemma_placement(k2, m);
}

/// The file count is the ceiling of `records / threshold`, and at least 1:
/// for `n >= 1` the count `c` satisfies `(c - 1) * m < n <= c * m`, which
/// is to say `c == (n + m - 1) / m`.
pub proof fn lemma_file_count(n: nat, m: nat)
    requires
        m >= 1,
    ensures
        n == 0 ==> suffix_after(n, m) == 1,
        n >= 1 ==> (suffix_after(n, m) - 1) * (m as int) < n <= suffix_after(n, m) * (m as int),
        n >= 1 ==> suffix_after(n, m) == (n + m - 1) / (m as int),
{
    lemma_placement(n, m);
    if n >= 1 {
        let s = suffix_after(n, m) as int;
        let mi = m as int;
        assert(s * mi == (s - 1) * mi + mi) by (nonlinear_arith);
        let r = n + mi - 1 - s * mi;
        assert(0 <= r < mi);
        assert((n + mi - 1) as int == s * mi + r);
        vstd::arithmetic::div_mod::lemma_fundamental_div_mod_converse_div(
            n + mi - 1,
            mi,
            s,
            r,
        );
    }
}

/// The writer's rotation state for one root: the open file's row count,
/// the current file suffix, and the rotation threshold.
pub struct CsvWriterState {
    pub lines_written: u16,
    pub file_suffix: u32,
    pub max_lines: u16,
}

impl CsvWriterState {
    /// The state's invariant: a positive threshold never exceeded, and a
    /// suffix that started at 1.
    pub open spec fn inv(self) -> bool {
        self.max_lines >= 1 && self.lines_written <= self.max_lines && self.file_suffix >= 1
    }

    /// The writer's state when the first file has just been opened.
    pub fn start(max_lines: u16) -> (s: Self)
        requires
            max_lines >= 1,
        ensures
            s.inv(),
            s.lines_written == lines_after(0, max_lines as nat),
            s.file_suffix == suffix_after(0, max_lines as nat),
            s.max_lines == max_lines,
    {
        CsvWriterState { lines_written: 0, file_suffix: 1, max_lines }
    }

    /// Accounts for one record: when the open file is full, rotation moves
    /// to the next suffix first; the record is then counted in the open
    /// file. Mirrors `lines_after` / `suffix_after` one step.
    pub fn on_record(&mut self) -> (rotated: bool)
        requires
            old(self).inv(),
            old(self).file_suffix < u32::MAX,
        ensures
            final(self).inv(),
            final(self).max_lines == old(self).max_lines,
            rotated == (old(self).lines_written == old(self).max_lines),
            rotated ==> final(self).file_suffix == old(self).file_suffix + 1
                && final(self).lines_written == 1,
            !rotated ==> final(self).file_suffix == old(self).file_suffix
                && final(self).lines_written == old(self).lines_written + 1,
            forall|n: nat|
                old(self).lines_written == lines_after(n, old(self).max_lines as nat)
                    && old(self).file_suffix == suffix_after(n, old(self).max_lines as nat)
                    ==> #[trigger] lines_after((n + 1) as nat, old(self).max_lines as nat)
                    == final(self).lines_written
                    && suffix_after((n + 1) as nat, old(self).max_lines as nat)
                    == final(self).file_suffix,
    {
        if self.lines_written == self.max_lines {
            self.file_suffix = self.file_suffix + 1;
            self.lines_written = 1;
            true
        } else {
            self.lines_written = self.lines_written + 1;
            false
        }
    }
}

} // verus!
