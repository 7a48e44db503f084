//! The extractor registry and the per-file scan step: extension dispatch,
//! format-specific text extraction, matching, and the finding record.
//!
//! Extraction itself is the work of outside parsing libraries, treated as
//! black-box text extractors; the dispatch, the legacy byte filter, the
//! UTF-8 text path, the archive-member concatenation and the matching are
//! verified.

use vstd::prelude::*;

use crate::matcher::{
    findings_model, opt_str_views, pattern_views, search_content, str_views, CompiledPattern,
};
use crate::text::{chars_to_string, string_chars, utf8_to_string};
use vstd::utf8::{decode_utf8, valid_utf8};

verus! {

/// The extraction strategy selected by a file's extension.
#[derive(Clone, Copy, Debug, PartialEq, Eq, Structural)]
pub enum ExtractorKind {
    Pdf,
    Ooxml,
    LegacyOffice,
    Text,
    Rtf,
    Msg,
    Unknown,
}

/// The index where the file name begins: right after the last path
/// separator, or the start of the path.
pub open spec fn file_name_start(p: Seq<char>) -> int
    decreases p.len(),
{
    if p.len() == 0 {
        0
    } else if p.last() == '/' || p.last() == '\\' {
        p.len() as int
    } else {
        file_name_start(p.drop_last())
    }
}

/// The file name of a path: everything after the last separator.
pub open spec fn file_name_of(p: Seq<char>) -> Seq<char> {
    p.skip(file_name_start(p))
}

/// The index of the last `.` of a file name, or -1 when there is none.
pub open spec fn last_dot(f: Seq<char>) -> int
    decreases f.len(),
{
    if f.len() == 0 {
        -1
    } else if f.last() == '.' {
        f.len() - 1
    } else {
        last_dot(f.drop_last())
    }
}

/// The extension of a file name: what follows the last `.`, provided the
/// dot is not the leading character.
pub open spec fn ext_of_name(f: Seq<char>) -> Option<Seq<char>> {
    if last_dot(f) <= 0 {
        None
    } else {
        Some(f.skip(last_dot(f) + 1))
    }
}

/// The extension of a path.
pub open spec fn extension_of(p: Seq<char>) -> Option<Seq<char>> {
    ext_of_name(file_name_of(p))
}

/// ASCII lowercasing of one character.
pub open spec fn lower_char(c: char) -> char {
    if 65 <= c as int <= 90 {
        ((c as int + 32) as char)
    } else {
        c
    }
}

/// ASCII lowercasing of a character sequence.
pub open spec fn lower_chars(s: Seq<char>) -> Seq<char> {
    s.map_values(|c: char| lower_char(c))
}

/// The extraction strategy of an extension, matched case-insensitively.
pub open spec fn kind_of_ext(e: Seq<char>) -> ExtractorKind {
    let l = lower_chars(e);
    if l == seq!['p', 'd', 'f'] {
        ExtractorKind::Pdf
    } else if l == seq!['x', 'l', 's', 'x'] || l == seq!['p', 'p', 't', 'x'] || l == seq!['d', 'o', 'c', 'x'] {
        ExtractorKind::Ooxml
    } else if l == seq!['d', 'o', 'c'] || l == seq!['p', 'p', 't'] || l == seq!['x', 'l', 's'] {
        ExtractorKind::LegacyOffice
    } else if l == seq!['t', 'x', 't'] || l == seq!['x', 'm', 'l'] || l == seq!['h', 't', 'm', 'l']
        || l == seq!['h', 't', 'm'] || l == seq!['c', 's', 'v'] {
        ExtractorKind::Text
    } else if l == seq!['r', 't', 'f'] || l == seq!['w', 'p', 'd'] {
        ExtractorKind::Rtf
    } else if l == seq!['m', 's', 'g'] {
        ExtractorKind::Msg
    } else {
        ExtractorKind::Unknown
    }
}

/// The extraction strategy of a whole path: unknown when the path has no
/// extension.
pub open spec fn kind_of_path(p: Seq<char>) -> ExtractorKind {
    match extension_of(p) {
        Some(e) => kind_of_ext(e),
        None => ExtractorKind::Unknown,
    }
}

/// Finds where the file name starts in a path.
fn find_file_name_start(p: &Vec<char>) -> (r: usize)
    ensures
        r == file_name_start(p@),
        r <= p@.len(),
{
    let mut j: usize = p.len();
    proof {
        assert(p@.take(p@.len() as int) =~= p@);
    }
    while j > 0 && p[j - 1] != '/' && p[j - 1] != '\\'
        invariant
            j <= p@.len(),
            file_name_start(p@) == file_name_start(p@.take(j as int)),
        decreases j,
    {
        proof {
            assert(p@.take(j as int).drop_last() =~= p@.take(j - 1));
        }
        j = j - 1;
    }
    proof {
        if j > 0 {
            assert(p@.take(j as int).last() == p@[j - 1]);
        }
    }
    j
}

/// Splits a path into its file name and its extension.
fn name_and_ext(p: &Vec<char>) -> (r: (Vec<char>, Option<Vec<char>>))
    ensures
        r.0@ == file_name_of(p@),
        ({
            let e = extension_of(p@);
            &&& r.1 is Some <==> e is Some
            &&& r.1 matches Some(v) ==> e == Some(v@)
        }),
{
    let start = find_file_name_start(p);
    let mut name: Vec<char> = Vec::new();
    let mut i: usize = start;
    while i < p.len()
        invariant
            file_name_start(p@) == start,
            start <= i <= p@.len(),
            name@ == p@.subrange(start as int, i as int),
        decreases p@.len() - i,
    {
        name.push(p[i]);
        proof {
            assert(name@ =~= p@.subrange(start as int, i + 1));
        }
        i = i + 1;
    }
    proof {
        assert(name@ =~= file_name_of(p@));
    }
    let mut k: usize = name.len();
    proof {
        assert(name@.take(name@.len() as int) =~= name@);
    }
    while k > 0 && name[k - 1] != '.'
        invariant
            k <= name@.len(),
            last_dot(name@) == last_dot(name@.take(k as int)),
        decreases k,
    {
        proof {
            assert(name@.take(k as int).drop_last() =~= name@.take(k - 1));
        }
        k = k - 1;
    }
    proof {
        if k > 0 {
            assert(name@.take(k as int).last() == name@[k - 1]);
        }
    }
    if k <= 1 {
        proof {
            assert(last_dot(name@) <= 0);
        }
        (name, None)
    } else {
        let mut ext: Vec<char> = Vec::new();
        let mut m: usize = k;
        while m < name.len()
            invariant
                k <= m <= name@.len(),
                ext@ == name@.subrange(k as int, m as int),
            decreases name@.len() - m,
        {
            ext.push(name[m]);
            proof {
                assert(ext@ =~= name@.subrange(k as int, m + 1));
            }
            m = m + 1;
        }
        proof {
            assert(last_dot(name@) == k - 1);
            assert(ext@ =~= name@.skip(k as int));
        }
        (name, Some(ext))
    }
}

/// ASCII-lowercases a character vector.
fn lower_vec(v: &Vec<char>) -> (r: Vec<char>)
    ensures
        r@ == lower_chars(v@),
{
    let mut r: Vec<char> = Vec::new();
    let mut i: usize = 0;
    while i < v.len()
        invariant
            i <= v@.len(),
            r@ == lower_chars(v@.take(i as int)),
        decreases v@.len() - i,
    {
        let c = v[i];
        let u = c as u32;
        if 65 <= u && u <= 90 {
            r.push(((u + 32) as u8) as char);
        } else {
            r.push(c);
        }
        proof {
            assert(r@ =~= lower_chars(v@.take(i + 1)));
        }
        i = i + 1;
    }
    proof {
        assert(v@.take(v@.len() as int) =~= v@);
    }
    r
}

/// Selects the extraction strategy of an extension, case-insensitively.
pub fn ext_kind(ext: &Vec<char>) -> (r: ExtractorKind)
    ensures
        r == kind_of_ext(ext@),
{
    let l = lower_vec(ext);
    if eq3(&l, 'p', 'd', 'f') {
        ExtractorKind::Pdf
    } else if eq4(&l, 'x', 'l', 's', 'x') || eq4(&l, 'p', 'p', 't', 'x') || eq4(
        &l,
        'd',
        'o',
        'c',
        'x',
    ) {
        ExtractorKind::Ooxml
    } else if eq3(&l, 'd', 'o', 'c') || eq3(&l, 'p', 'p', 't') || eq3(&l, 'x', 'l', 's') {
        ExtractorKind::LegacyOffice
    } else if eq3(&l, 't', 'x', 't') || eq3(&l, 'x', 'm', 'l') || eq4(&l, 'h', 't', 'm', 'l')
        || eq3(&l, 'h', 't', 'm') || eq3(&l, 'c', 's', 'v') {
        ExtractorKind::Text
    } else if eq3(&l, 'r', 't', 'f') || eq3(&l, 'w', 'p', 'd') {
        ExtractorKind::Rtf
    } else if eq3(&l, 'm', 's', 'g') {
        ExtractorKind::Msg
    } else {
        ExtractorKind::Unknown
    }
}

fn eq3(v: &Vec<char>, a: char, b: char, c: char) -> (r: bool)
    ensures
        r == (v@ == seq![a, b, c]),
{
    let r = v.len() == 3 && v[0] == a && v[1] == b && v[2] == c;
    proof {
        if r {
            assert(v@ =~= seq![a, b, c]);
        }
    }
    r
}

fn eq4(v: &Vec<char>, a: char, b: char, c: char, d: char) -> (r: bool)
    ensures
        r == (v@ == seq![a, b, c, d]),
{
    let r = v.len() == 4 && v[0] == a && v[1] == b && v[2] == c && v[3] == d;
    proof {
        if r {
            assert(v@ =~= seq![a, b, c, d]);
        }
    }
    r
}

/// Whether a byte is an ASCII letter or digit.
pub open spec fn is_ascii_alnum(b: u8) -> bool {
    (48 <= b <= 57) || (65 <= b <= 90) || (97 <= b <= 122)
}

/// Whether a byte is ASCII whitespace (space, tab, newline, form feed,
/// carriage return).
pub open spec fn is_ascii_space(b: u8) -> bool {
    b == 32 || b == 9 || b == 10 || b == 12 || b == 13
}

/// The crude legacy-format text: ASCII letters and digits kept, whitespace
/// normalised to single spaces, everything else dropped.
pub open spec fn legacy_chars(bs: Seq<u8>) -> Seq<char>
    decreases bs.len(),
{
    if bs.len() == 0 {
        Seq::empty()
    } else {
        legacy_chars(bs.drop_last()) + (if is_ascii_alnum(bs.last()) {
            seq![bs.last() as char]
        } else if is_ascii_space(bs.last()) {
            seq![' ']
        } else {
            Seq::empty()
        })
    }
}

/// Filters raw bytes down to the legacy-format text.
pub fn legacy_filter(bs: &Vec<u8>) -> (r: Vec<char>)
    ensures
        r@ == legacy_chars(bs@),
{
    let mut r: Vec<char> = Vec::new();
    let mut i: usize = 0;
    while i < bs.len()
        invariant
            i <= bs@.len(),
            r@ == legacy_chars(bs@.take(i as int)),
        decreases bs@.len() - i,
    {
        let b = bs[i];
        if (48 <= b && b <= 57) || (65 <= b && b <= 90) || (97 <= b && b <= 122) {
            r.push(b as char);
        } else if b == 32 || b == 9 || b == 10 || b == 12 || b == 13 {
            r.push(' ');
        }
        proof {
            assert(bs@.take(i + 1).drop_last() =~= bs@.take(i as int));
            assert(r@ =~= legacy_chars(bs@.take(i + 1)));
        }
        i = i + 1;
    }
    proof {
        assert(bs@.take(bs@.len() as int) =~= bs@);
    }
    r
}

/// The page count of a loadable PDF document, or nothing when the bytes
/// cannot be loaded as one.
pub uninterp spec fn pdf_pages_of(b: Seq<u8>) -> Option<int>;

/// The text one numbered page of a PDF document's bytes yields: the empty
/// sequence when the document does not load or the page's text cannot be
/// extracted.
pub uninterp spec fn pdf_page_text_of(b: Seq<u8>, page: int) -> Seq<char>;

/// Relies on lopdf's Document::load_mem and get_pages: the page count of
/// the loaded document, or nothing when loading fails. Pages are keyed by
/// u32 page numbers, so the count fits u32. The result depends on the
/// bytes alone.
#[verifier::external_body]
fn pdf_load(data: &Vec<u8>) -> (r: Option<u32>)
    ensures
        r is Some <==> pdf_pages_of(data@) is Some,
        r matches Some(n) ==> pdf_pages_of(data@) == Some(n as int),
{
    match lopdf::Document::load_mem(data.as_slice()) {
        Ok(doc) => Some(doc.get_pages().len() as u32),
        Err(_) => None,
    }
}

/// Relies on lopdf's Document::load_mem and extract_text: the text of one
/// numbered page, the empty string when loading or extraction fails. The
/// parse is deterministic, so the result depends on the bytes and the page
/// number alone.
#[verifier::external_body]
fn pdf_page_text(data: &Vec<u8>, page: u32) -> (r: String)
    ensures
        r@ == pdf_page_text_of(data@, page as int),
{
    match lopdf::Document::load_mem(data.as_slice()) {
        Ok(doc) => doc.extract_text(&[page]).unwrap_or_default(),
        Err(_) => String::new(),
    }
}

/// The concatenated text of pages 1..=upto, in page order, with no
/// separator.
pub open spec fn pdf_concat(b: Seq<u8>, upto: int) -> Seq<char>
    decreases upto,
{
    if upto <= 0 {
        Seq::empty()
    } else {
        pdf_concat(b, upto - 1) + pdf_page_text_of(b, upto)
    }
}

/// What the member list of a ZIP archive is, in central-directory order, or
/// nothing when the bytes are not a readable archive.
pub uninterp spec fn zip_names_of(b: Seq<u8>) -> Option<Seq<Seq<char>>>;

/// What a named member of a ZIP archive holds, or nothing when the member
/// is missing or cannot be read.
pub uninterp spec fn zip_member_of(b: Seq<u8>, name: Seq<char>) -> Option<Seq<u8>>;

/// Relies on zip's ZipArchive::new and file_names: the archive's member
/// names in central-directory order; failure exactly when the bytes are not
/// a readable archive.
#[verifier::external_body]
fn zip_names(data: &Vec<u8>) -> (r: Option<Vec<String>>)
    ensures
        r is Some <==> zip_names_of(data@) is Some,
        r matches Some(ns) ==> zip_names_of(data@) == Some(str_views(ns@)),
{
    let cursor = std::io::Cursor::new(data.as_slice());
    match zip::ZipArchive::new(cursor) {
        Ok(a) => Some(a.file_names().map(|n| n.to_string()).collect()),
        Err(_) => None,
    }
}

/// Relies on zip's ZipArchive::by_name and Read::read_to_end: the full
/// contents of the named member, or nothing when the archive, the member or
/// its decompression fails.
#[verifier::external_body]
fn zip_member(data: &Vec<u8>, name: &str) -> (r: Option<Vec<u8>>)
    ensures
        r is Some <==> zip_member_of(data@, name@) is Some,
        r matches Some(m) ==> zip_member_of(data@, name@) == Some(m@),
{
    let cursor = std::io::Cursor::new(data.as_slice());
    let mut archive = match zip::ZipArchive::new(cursor) {
        Ok(a) => a,
        Err(_) => return None,
    };
    let mut member = match archive.by_name(name) {
        Ok(m) => m,
        Err(_) => return None,
    };
    let mut buf: Vec<u8> = Vec::new();
    match std::io::Read::read_to_end(&mut member, &mut buf) {
        Ok(_) => Some(buf),
        Err(_) => None,
    }
}

/// What xml's event stream yields for a document's bytes, one entry per
/// event: its run of character data, or nothing for any other event. The
/// stream ends (fused) after a parse error.
pub uninterp spec fn xml_events_of(b: Seq<u8>) -> Seq<Option<Seq<char>>>;

/// Relies on xml's EventReader: the event stream drained in order, each
/// event converted to its character-data run (other events and errors to
/// nothing). The parse is deterministic, so the result depends on the
/// bytes alone.
#[verifier::external_body]
fn xml_events(data: &Vec<u8>) -> (r: Vec<Option<String>>)
    ensures
        opt_str_views(r@) == xml_events_of(data@),
{
    xml::reader::EventReader::new(data.as_slice())
        .into_iter()
        .map(|ev| match ev {
            Ok(xml::reader::XmlEvent::Characters(c)) => Some(c),
            _ => None,
        })
        .collect()
}

/// The character-data runs of an event stream, concatenated in document
/// order.
pub open spec fn chars_of_events(evs: Seq<Option<Seq<char>>>) -> Seq<char>
    decreases evs.len(),
{
    if evs.len() == 0 {
        Seq::empty()
    } else {
        chars_of_events(evs.drop_last()) + (match evs.last() {
            Some(c) => c,
            None => Seq::empty(),
        })
    }
}

/// Collects an XML document's character data: the parsed event stream in
/// order, every character-data run kept, everything else skipped.
fn xml_characters(data: &Vec<u8>) -> (r: String)
    ensures
        r@ == chars_of_events(xml_events_of(data@)),
{
    let events = xml_events(data);
    let ghost evs = opt_str_views(events@);
    let mut out = String::new();
    let mut i: usize = 0;
    while i < events.len()
        invariant
            i <= events@.len(),
            evs == opt_str_views(events@),
            xml_events_of(data@) == evs,
            out@ == chars_of_events(evs.take(i as int)),
        decreases events@.len() - i,
    {
        proof {
            assert(evs.take(i + 1).drop_last() =~= evs.take(i as int));
            assert(evs.take(i + 1).last() == evs[i as int]);
        }
        match &events[i] {
            Some(c) => {
                assert(evs[i as int] == Some(c@));
                out.append(c.as_str());
            },
            None => {
                assert(evs[i as int] is None);
            },
        }
        i = i + 1;
    }
    proof {
        assert(evs.take(evs.len() as int) =~= evs);
    }
    out
}

/// Relies on msg_parser's Outlook::from_slice and to_json: the JSON
/// serialisation of the parsed message, or nothing on a parse failure.
/// Parts of the message live in hash maps whose serialisation order varies
/// per process, so nothing is promised of the string's value.
#[verifier::external_body]
fn msg_extract(data: &Vec<u8>) -> (r: Option<String>) {
    let outlook = match msg_parser::Outlook::from_slice(data.as_slice()) {
        Ok(o) => o,
        Err(_) => return None,
    };
    outlook.to_json().ok()
}

/// The concatenated XML character data of an archive's members, in member
/// order; an unreadable member contributes nothing.
pub open spec fn ooxml_concat(b: Seq<u8>, names: Seq<Seq<char>>) -> Seq<char>
    decreases names.len(),
{
    if names.len() == 0 {
        Seq::empty()
    } else {
        ooxml_concat(b, names.drop_last()) + (match zip_member_of(b, names.last()) {
            Some(m) => chars_of_events(xml_events_of(m)),
            None => Seq::empty(),
        })
    }
}

/// The text the registry extracts from a file's bytes under a strategy, or
/// nothing when extraction fails or no strategy applies.
pub open spec fn extracted_text(kind: ExtractorKind, b: Seq<u8>) -> Option<Seq<char>> {
    match kind {
        ExtractorKind::Text => if valid_utf8(b) {
            Some(decode_utf8(b))
        } else {
            None
        },
        ExtractorKind::Rtf => if valid_utf8(b) {
            Some(decode_utf8(b))
        } else {
            None
        },
        ExtractorKind::LegacyOffice => Some(legacy_chars(b)),
        ExtractorKind::Pdf => match pdf_pages_of(b) {
            Some(n) => Some(pdf_concat(b, n)),
            None => None,
        },
        // The MSG serialisation is not a function of the bytes alone, so
        // no text stands here; `scan_msg` states its outcome itself.
        ExtractorKind::Msg => None,
        ExtractorKind::Ooxml => match zip_names_of(b) {
            Some(ns) => Some(ooxml_concat(b, ns)),
            None => None,
        },
        ExtractorKind::Unknown => None,
    }
}

/// The findings of one file's content under a strategy: nothing when
/// extraction fails or no pattern matches.
pub open spec fn scan_outcome(kind: ExtractorKind, b: Seq<u8>, patterns: Seq<Seq<char>>) -> Option<
    Seq<Seq<char>>,
> {
    match extracted_text(kind, b) {
        Some(t) => {
            let f = findings_model(patterns, t);
            if f.len() > 0 {
                Some(f)
            } else {
                None
            }
        },
        None => None,
    }
}

/// Matches already-extracted text, returning the findings with the path
/// when any pattern matched.
fn match_extracted(text: &str, path: &str, patterns: &Vec<CompiledPattern>) -> (r: Option<
    (Vec<String>, String),
>)
    ensures
        ({
            let f = findings_model(pattern_views(patterns@), text@);
            &&& r is Some <==> f.len() > 0
            &&& r matches Some((fs, p)) ==> str_views(fs@) == f && p@ == path@
        }),
{
    let findings = search_content(text, patterns);
    if findings.len() > 0 {
        Some((findings, path.to_owned()))
    } else {
        None
    }
}

/// Scans plain-text family files: the whole content as UTF-8, dropped when
/// it is not valid UTF-8 or nothing matches.
pub fn scan_txt(path: &str, content: &Vec<u8>, patterns: &Vec<CompiledPattern>) -> (r: Option<
    (Vec<String>, String),
>)
    ensures
        ({
            let o = scan_outcome(ExtractorKind::Text, content@, pattern_views(patterns@));
            &&& r is Some <==> o is Some
            &&& r matches Some((fs, p)) ==> o == Some(str_views(fs@)) && p@ == path@
        }),
{
    let text = match utf8_to_string(content) {
        Some(t) => t,
        None => {
            return None;
        },
    };
    match_extracted(text.as_str(), path, patterns)
}

/// Scans RTF and WPD files: read as UTF-8 text, no format parsing.
pub fn scan_rtf(path: &str, content: &Vec<u8>, patterns: &Vec<CompiledPattern>) -> (r: Option<
    (Vec<String>, String),
>)
    ensures
        ({
            let o = scan_outcome(ExtractorKind::Rtf, content@, pattern_views(patterns@));
            &&& r is Some <==> o is Some
            &&& r matches Some((fs, p)) ==> o == Some(str_views(fs@)) && p@ == path@
        }),
{
    let text = match utf8_to_string(content) {
        Some(t) => t,
        None => {
            return None;
        },
    };
    match_extracted(text.as_str(), path, patterns)
}

/// Scans legacy binary Office files: the crude ASCII filter over the raw
/// bytes.
pub fn scan_legacy_office(path: &str, content: &Vec<u8>, patterns: &Vec<CompiledPattern>) -> (r:
    Option<(Vec<String>, String)>)
    ensures
        ({
            let o = scan_outcome(ExtractorKind::LegacyOffice, content@, pattern_views(patterns@));
            &&& r is Some <==> o is Some
            &&& r matches Some((fs, p)) ==> o == Some(str_views(fs@)) && p@ == path@
        }),
{
    let chars = legacy_filter(content);
    let text = chars_to_string(&chars);
    match_extracted(text.as_str(), path, patterns)
}

/// Scans a PDF: enumerates pages 1..N of the loaded document and
/// concatenates their text in page order with no separator; a page whose
/// text cannot be extracted contributes nothing, a document that does not
/// load drops the file.
pub fn scan_pdf(path: &str, content: &Vec<u8>, patterns: &Vec<CompiledPattern>) -> (r: Option<
    (Vec<String>, String),
>)
    ensures
        ({
            let o = scan_outcome(ExtractorKind::Pdf, content@, pattern_views(patterns@));
            &&& r is Some <==> o is Some
            &&& r matches Some((fs, p)) ==> o == Some(str_views(fs@)) && p@ == path@
        }),
{
    let n = match pdf_load(content) {
        Some(n) => n,
        None => {
            return None;
        },
    };
    let mut text = String::new();
    let mut p: u32 = 0;
    while p < n
        invariant
            p <= n,
            pdf_pages_of(content@) == Some(n as int),
            text@ == pdf_concat(content@, p as int),
        decreases n - p,
    {
        let chunk = pdf_page_text(content, p + 1);
        text.append(chunk.as_str());
        p = p + 1;
    }
    match_extracted(text.as_str(), path, patterns)
}

/// Some extracted text yields exactly these (non-empty) findings; stated
/// where the extraction's value cannot be tied to the file's bytes alone.
pub open spec fn findings_of_some_text(
    patterns: Seq<Seq<char>>,
    findings: Seq<Seq<char>>,
) -> bool {
    exists|t: Seq<char>| findings == #[trigger] findings_model(patterns, t) && findings.len() > 0
}

/// Scans an MSG email container: the JSON serialisation of the parsed
/// message is matched. That serialisation is not a function of the bytes
/// alone (hash-map field order varies per process), so the contract states
/// what holds of every outcome: a record holds exactly the deduplicated
/// findings of whatever text the parser returned.
pub fn scan_msg(path: &str, content: &Vec<u8>, patterns: &Vec<CompiledPattern>) -> (r: Option<
    (Vec<String>, String),
>)
    ensures
        r matches Some((fs, p)) ==> findings_of_some_text(
            pattern_views(patterns@),
            str_views(fs@),
        ) && p@ == path@,
{
    let text = match msg_extract(content) {
        Some(t) => t,
        None => {
            return None;
        },
    };
    match match_extracted(text.as_str(), path, patterns) {
        Some((fs, p)) => {
            proof {
                assert(str_views(fs@) == findings_model(pattern_views(patterns@), text@));
                assert(findings_of_some_text(pattern_views(patterns@), str_views(fs@)));
            }
            Some((fs, p))
        },
        None => None,
    }
}

/// Scans an OOXML document (docx, xlsx, pptx): opens it as a ZIP archive
/// and concatenates the XML character data of every member; an unreadable
/// member is skipped, an unreadable archive drops the file.
pub fn scan_ooxml(path: &str, content: &Vec<u8>, patterns: &Vec<CompiledPattern>) -> (r: Option<
    (Vec<String>, String),
>)
    ensures
        ({
            let o = scan_outcome(ExtractorKind::Ooxml, content@, pattern_views(patterns@));
            &&& r is Some <==> o is Some
            &&& r matches Some((fs, p)) ==> o == Some(str_views(fs@)) && p@ == path@
        }),
{
    let names = match zip_names(content) {
        Some(ns) => ns,
        None => {
            return None;
        },
    };
    let ghost nsv = str_views(names@);
    let mut text = String::new();
    let mut i: usize = 0;
    while i < names.len()
        invariant
            i <= names@.len(),
            nsv == str_views(names@),
            zip_names_of(content@) == Some(nsv),
            text@ == ooxml_concat(content@, nsv.take(i as int)),
        decreases names@.len() - i,
    {
        proof {
            assert(nsv.take(i + 1).drop_last() =~= nsv.take(i as int));
            assert(nsv.take(i + 1).last() == nsv[i as int]);
        }
        match zip_member(content, names[i].as_str()) {
            Some(member) => {
                let chunk = xml_characters(&member);
                text.append(chunk.as_str());
            },
            None => {},
        }
        i = i + 1;
    }
    proof {
        assert(nsv.take(nsv.len() as int) =~= nsv);
    }
    match_extracted(text.as_str(), path, patterns)
}

/// The per-file scan step: select the extractor by the lowercased
/// extension, extract, match, and build at most one finding record.
pub fn scan_file(path: &str, content: &Vec<u8>, patterns: &Vec<CompiledPattern>) -> (r: Option<
    crate::Row,
>)
    ensures
        ({
            let kind = kind_of_path(path@);
            let pv = pattern_views(patterns@);
            &&& kind != ExtractorKind::Msg ==> {
                let o = scan_outcome(kind, content@, pv);
                &&& r is Some <==> o is Some
                &&& r matches Some(row) ==> o matches Some(f) && row.findings@
                    == crate::matcher::joined(f)
            }
            &&& kind == ExtractorKind::Msg ==> (r matches Some(row) ==> exists|f: Seq<Seq<char>>|
                #[trigger] findings_of_some_text(pv, f) && row.findings@
                    == crate::matcher::joined(f))
            &&& r matches Some(row) ==> row.filename@ == file_name_of(path@) && row.path@
                == path@
        }),
{
    let chars = string_chars(path);
    let (name, ext) = name_and_ext(&chars);
    let kind = match ext {
        Some(e) => ext_kind(&e),
        None => ExtractorKind::Unknown,
    };
    let scanned = match kind {
        ExtractorKind::Pdf => scan_pdf(path, content, patterns),
        ExtractorKind::Ooxml => scan_ooxml(path, content, patterns),
        ExtractorKind::LegacyOffice => scan_legacy_office(path, content, patterns),
        ExtractorKind::Text => scan_txt(path, content, patterns),
        ExtractorKind::Rtf => scan_rtf(path, content, patterns),
        ExtractorKind::Msg => scan_msg(path, content, patterns),
        ExtractorKind::Unknown => None,
    };
    match scanned {
        Some((findings, p)) => {
            let ghost fv = str_views(findings@);
            let row = crate::Row {
                findings: crate::matcher::findings_to_string(findings),
                filename: chars_to_string(&name),
                path: p,
            };
            proof {
                if kind == ExtractorKind::Msg {
                    assert(findings_of_some_text(pattern_views(patterns@), fv));
                    assert(row.findings@ == crate::matcher::joined(fv));
                }
            }
            Some(row)
        },
        None => None,
    }
}

} // verus!
