//! The matcher: compiled regex patterns, capture extraction, and the
//! deduplicated findings list of one file's text.
//!
//! For each pattern in insertion order, the first match's capture groups are
//! appended to the findings, each distinct substring at most once, first
//! appearance preserved.

use vstd::prelude::*;

verus! {

/// A declaration of regex's compiled pattern type, opaque to verification.
#[verifier::external_type_specification]
#[verifier::external_body]
pub struct ExRegex(regex::Regex);

/// A compiled pattern together with the source text it was compiled from.
pub struct CompiledPattern {
    re: regex::Regex,
    src: String,
}

impl CompiledPattern {
    /// The pattern source this regex was compiled from.
    pub closed spec fn pattern(&self) -> Seq<char> {
        self.src@
    }
}

/// Whether regex compilation (Regex::new) accepts a pattern source.
pub uninterp spec fn regex_compiles(src: Seq<char>) -> bool;

/// What Regex::captures returns for a pattern source and a text: the capture
/// groups of the first match (group 0 first; a group that did not
/// participate is None), or the empty sequence when nothing matches.
pub uninterp spec fn captures_of(src: Seq<char>, text: Seq<char>) -> Seq<Option<Seq<char>>>;

/// The views of a sequence of strings.
pub open spec fn str_views(v: Seq<String>) -> Seq<Seq<char>> {
    v.map_values(|s: String| s@)
}

/// The views of a sequence of optional strings.
pub open spec fn opt_str_views(v: Seq<Option<String>>) -> Seq<Option<Seq<char>>> {
    v.map_values(
        |o: Option<String>|
            match o {
                Some(s) => Some(s@),
                None => None,
            },
    )
}

/// The pattern sources of a sequence of compiled patterns.
pub open spec fn pattern_views(v: Seq<CompiledPattern>) -> Seq<Seq<char>> {
    v.map_values(|p: CompiledPattern| p.pattern())
}

/// Relies on regex's Regex::new: it accepts a pattern exactly when the
/// syntax is valid and the compiled form fits the default size limits, and
/// the compiled regex is the one for this source.
#[verifier::external_body]
fn regex_compile(src: String) -> (r: Option<CompiledPattern>)
    ensures
        r is Some <==> regex_compiles(src@),
        r matches Some(p) ==> p.pattern() == src@,
{
    match regex::Regex::new(&src) {
        Ok(re) => Some(CompiledPattern { re, src }),
        Err(_) => None,
    }
}

/// Relies on regex's Regex::captures: the groups of the first match of this
/// compiled pattern in the text, in group order, or nothing when the pattern
/// does not match.
#[verifier::external_body]
fn regex_captures(p: &CompiledPattern, text: &str) -> (r: Vec<Option<String>>)
    ensures
        opt_str_views(r@) == captures_of(p.pattern(), text@),
{
    match p.re.captures(text) {
        Some(caps) => caps.iter().map(|m| m.map(|g| g.as_str().to_string())).collect(),
        None => Vec::new(),
    }
}

/// Appends a substring unless it is already present.
pub open spec fn push_unique(acc: Seq<Seq<char>>, x: Seq<char>) -> Seq<Seq<char>> {
    if acc.contains(x) {
        acc
    } else {
        acc.push(x)
    }
}

/// Folds one pattern's capture groups into the findings accumulator,
/// skipping non-participating groups.
pub open spec fn add_groups(acc: Seq<Seq<char>>, gs: Seq<Option<Seq<char>>>) -> Seq<Seq<char>>
    decreases gs.len(),
{
    if gs.len() == 0 {
        acc
    } else {
        let rest = add_groups(acc, gs.drop_last());
        match gs.last() {
            Some(s) => push_unique(rest, s),
            None => rest,
        }
    }
}

/// The deduplicated findings of a text under a pattern list, in pattern
/// order and first appearance.
pub open spec fn findings_model(patterns: Seq<Seq<char>>, text: Seq<char>) -> Seq<Seq<char>>
    decreases patterns.len(),
{
    if patterns.len() == 0 {
        Seq::empty()
    } else {
        add_groups(
            findings_model(patterns.drop_last(), text),
            captures_of(patterns.last(), text),
        )
    }
}

/// No substring occurs twice in the sequence.
pub open spec fn all_distinct(s: Seq<Seq<char>>) -> bool {
    forall|i: int, j: int| 0 <= i < j < s.len() ==> s[i] != s[j]
}

proof fn lemma_push_unique_distinct(acc: Seq<Seq<char>>, x: Seq<char>)
    requires
        all_distinct(acc),
    ensures
        all_distinct(push_unique(acc, x)),
        forall|y: Seq<char>| #[trigger] push_unique(acc, x).contains(y) <==> acc.contains(y) || y
            == x,
{
    let r = push_unique(acc, x);
    if !acc.contains(x) {
        assert forall|i: int, j: int| 0 <= i < j < r.len() implies r[i] != r[j] by {
            if j == r.len() - 1 {
                assert(acc[i] == r[i]);
                assert(acc.contains(acc[i]));
            }
        }
        assert forall|y: Seq<char>| #[trigger] r.contains(y) implies acc.contains(y) || y
            == x by {
            let k = choose|k: int| 0 <= k < r.len() && r[k] == y;
            if k < acc.len() {
                assert(acc[k] == y);
            }
        }
        assert forall|y: Seq<char>| acc.contains(y) || y == x implies r.contains(y) by {
            if acc.contains(y) {
                let k = choose|k: int| 0 <= k < acc.len() && acc[k] == y;
                assert(r[k] == y);
            } else {
                assert(r[r.len() - 1] == x);
            }
        }
    }
}

proof fn lemma_add_groups_distinct(acc: Seq<Seq<char>>, gs: Seq<Option<Seq<char>>>)
    requires
        all_distinct(acc),
    ensures
        all_distinct(add_groups(acc, gs)),
    decreases gs.len(),
{
    if gs.len() > 0 {
        lemma_add_groups_distinct(acc, gs.drop_last());
        match gs.last() {
            Some(s) => {
                lemma_push_unique_distinct(add_groups(acc, gs.drop_last()), s);
            },
            None => {},
        }
    }
}

proof fn lemma_push_unique_contains(acc: Seq<Seq<char>>, x: Seq<char>, y: Seq<char>)
    ensures
        push_unique(acc, x).contains(y) <==> (acc.contains(y) || y == x),
{
    let r = push_unique(acc, x);
    if !acc.contains(x) {
        if r.contains(y) {
            let k = choose|k: int| 0 <= k < r.len() && r[k] == y;
            if k < acc.len() {
                assert(acc[k] == y);
            }
        }
        if acc.contains(y) {
            let k = choose|k: int| 0 <= k < acc.len() && acc[k] == y;
            assert(r[k] == y);
        }
        if y == x {
            assert(r[r.len() - 1] == y);
        }
    }
}

/// Whether one of the capture groups produced this substring.
pub open spec fn captured_by(gs: Seq<Option<Seq<char>>>, y: Seq<char>) -> bool {
    exists|j: int| 0 <= j < gs.len() && #[trigger] gs[j] == Some(y)
}

proof fn lemma_add_groups_contains(acc: Seq<Seq<char>>, gs: Seq<Option<Seq<char>>>, y: Seq<char>)
    ensures
        add_groups(acc, gs).contains(y) <==> (acc.contains(y) || captured_by(gs, y)),
    decreases gs.len(),
{
    if gs.len() == 0 {
        assert(!captured_by(gs, y));
    } else {
        lemma_add_groups_contains(acc, gs.drop_last(), y);
        let rest = add_groups(acc, gs.drop_last());
        match gs.last() {
            Some(x) => {
                lemma_push_unique_contains(rest, x, y);
            },
            None => {},
        }
        if captured_by(gs.drop_last(), y) {
            let j = choose|j: int|
                0 <= j < gs.drop_last().len() && #[trigger] gs.drop_last()[j] == Some(y);
            assert(gs[j] == Some(y));
        }
        if gs.last() == Some(y) {
            assert(gs[gs.len() - 1] == Some(y));
        }
        if captured_by(gs, y) && !(gs.last() == Some(y)) {
            let j = choose|j: int| 0 <= j < gs.len() && #[trigger] gs[j] == Some(y);
            assert(j < gs.len() - 1);
            assert(gs.drop_last()[j] == Some(y));
        }
    }
}

/// Whether some pattern's first match captured this substring.
pub open spec fn some_capture(patterns: Seq<Seq<char>>, text: Seq<char>, y: Seq<char>) -> bool {
    exists|i: int|
        0 <= i < patterns.len() && #[trigger] captured_by(captures_of(patterns[i], text), y)
}

/// The findings of one file hold exactly the substrings some pattern
/// captured: nothing is dropped and nothing is invented.
pub proof fn lemma_findings_complete(patterns: Seq<Seq<char>>, text: Seq<char>, y: Seq<char>)
    ensures
        findings_model(patterns, text).contains(y) <==> some_capture(patterns, text, y),
    decreases patterns.len(),
{
    if patterns.len() == 0 {
        assert(!findings_model(patterns, text).contains(y));
        assert(!some_capture(patterns, text, y));
    } else {
        let pre = patterns.drop_last();
        lemma_findings_complete(pre, text, y);
        lemma_add_groups_contains(
            findings_model(pre, text),
            captures_of(patterns.last(), text),
            y,
        );
        if some_capture(pre, text, y) {
            let i = choose|i: int|
                0 <= i < pre.len() && #[trigger] captured_by(captures_of(pre[i], text), y);
            assert(captured_by(captures_of(patterns[i], text), y));
        }
        if captured_by(captures_of(patterns.last(), text), y) {
            assert(captured_by(captures_of(patterns[patterns.len() - 1], text), y));
        }
        if some_capture(patterns, text, y) {
            let i = choose|i: int|
                0 <= i < patterns.len() && #[trigger] captured_by(
                    captures_of(patterns[i], text),
                    y,
                );
            if i < patterns.len() - 1 {
                assert(captured_by(captures_of(pre[i], text), y));
            }
        }
    }
}

/// Within one file's findings, each distinct substring appears at most once.
pub proof fn lemma_findings_distinct(patterns: Seq<Seq<char>>, text: Seq<char>)
    ensures
        all_distinct(findings_model(patterns, text)),
    decreases patterns.len(),
{
    if patterns.len() > 0 {
        lemma_findings_distinct(patterns.drop_last(), text);
        lemma_add_groups_distinct(
            findings_model(patterns.drop_last(), text),
            captures_of(patterns.last(), text),
        );
    }
}

/// Whether a string with this view is in the vector.
pub fn contains_string(v: &Vec<String>, x: &String) -> (r: bool)
    ensures
        r == str_views(v@).contains(x@),
{
    let mut k: usize = 0;
    while k < v.len()
        invariant
            k <= v@.len(),
            forall|m: int| 0 <= m < k ==> str_views(v@)[m] != x@,
        decreases v@.len() - k,
    {
        if v[k].eq(x) {
            assert(str_views(v@)[k as int] == x@);
            return true;
        }
        k = k + 1;
    }
    false
}

/// Runs every compiled pattern over the text and collects the deduplicated
/// findings, in pattern order, first appearance first.
pub fn search_content(content: &str, patterns: &Vec<CompiledPattern>) -> (r: Vec<String>)
    ensures
        str_views(r@) == findings_model(pattern_views(patterns@), content@),
{
    let mut findings: Vec<String> = Vec::new();
    let mut i: usize = 0;
    while i < patterns.len()
        invariant
            i <= patterns@.len(),
            str_views(findings@) == findings_model(
                pattern_views(patterns@.take(i as int)),
                content@,
            ),
        decreases patterns@.len() - i,
    {
        let groups = regex_captures(&patterns[i], content);
        let ghost gs = captures_of(patterns@[i as int].pattern(), content@);
        let mut j: usize = 0;
        while j < groups.len()
            invariant
                j <= groups@.len(),
                opt_str_views(groups@) == gs,
                str_views(findings@) == add_groups(
                    findings_model(pattern_views(patterns@.take(i as int)), content@),
                    gs.take(j as int),
                ),
            decreases groups@.len() - j,
        {
            proof {
                assert(gs.take(j + 1).drop_last() =~= gs.take(j as int));
            }
            match &groups[j] {
                Some(s) => {
                    assert(gs[j as int] == Some(s@));
                    if !contains_string(&findings, s) {
                        findings.push(s.clone());
                        proof {
                            assert(str_views(findings@) =~= add_groups(
                                findings_model(pattern_views(patterns@.take(i as int)), content@),
                                gs.take(j + 1),
                            ));
                        }
                    } else {
                        proof {
                            assert(str_views(findings@) =~= add_groups(
                                findings_model(pattern_views(patterns@.take(i as int)), content@),
                                gs.take(j + 1),
                            ));
                        }
                    }
                },
                None => {
                    assert(gs[j as int] is None);
                },
            }
            j = j + 1;
        }
        proof {
            assert(gs.take(groups@.len() as int) =~= gs);
            assert(pattern_views(patterns@.take(i + 1)).drop_last() =~= pattern_views(
                patterns@.take(i as int),
            ));
            assert(pattern_views(patterns@.take(i + 1)).last() == patterns@[i as int].pattern());
        }
        i = i + 1;
    }
    proof {
        assert(patterns@.take(patterns@.len() as int) =~= patterns@);
    }
    findings
}

/// The findings list joined into one string, `", "` between items.
pub open spec fn joined(items: Seq<Seq<char>>) -> Seq<char>
    decreases items.len(),
{
    if items.len() == 0 {
        Seq::empty()
    } else if items.len() == 1 {
        items[0]
    } else {
        joined(items.drop_last()) + seq![',', ' '] + items.last()
    }
}

/// Joins the findings of one file into a single comma-separated string.
pub fn findings_to_string(findings: Vec<String>) -> (r: String)
    ensures
        r@ == joined(str_views(findings@)),
{
    let mut words = String::new();
    let mut i: usize = 0;
    proof {
        reveal_strlit(", ");
    }
    while i < findings.len()
        invariant
            i <= findings@.len(),
            words@ == joined(str_views(findings@).take(i as int)),
            ", "@ == seq![',', ' '],
        decreases findings@.len() - i,
    {
        if i > 0 {
            words.append(", ");
        }
        words.append(findings[i].as_str());
        proof {
            let all = str_views(findings@);
            assert(all.take(i + 1).drop_last() =~= all.take(i as int));
            assert(words@ =~= joined(all.take(i + 1)));
        }
        i = i + 1;
    }
    proof {
        assert(str_views(findings@).take(findings@.len() as int) =~= str_views(findings@));
    }
    words
}

/// The effective pattern source: compiled verbatim when case-sensitive,
/// otherwise prefixed with the case-insensitivity toggle.
pub open spec fn effective_pattern(kw: Seq<char>, case_sensitive: bool) -> Seq<char> {
    if case_sensitive {
        kw
    } else {
        "(?i)"@ + kw
    }
}

/// The effective sources of a keyword list.
pub open spec fn effective_patterns(kws: Seq<Seq<char>>, case_sensitive: bool) -> Seq<Seq<char>> {
    kws.map_values(|kw: Seq<char>| effective_pattern(kw, case_sensitive))
}

/// Compiles every keyword, prefixing the case-insensitivity toggle unless
/// the scan is case-sensitive. Fails when any keyword is rejected by the
/// regex compiler.
pub fn load_regex(keywords: &Vec<String>, case_sensitive: bool) -> (r: Option<
    Vec<CompiledPattern>,
>)
    ensures
        r is Some <==> (forall|k: int|
            0 <= k < keywords@.len() ==> regex_compiles(
                #[trigger] effective_patterns(str_views(keywords@), case_sensitive)[k],
            )),
        r matches Some(ps) ==> pattern_views(ps@) == effective_patterns(
            str_views(keywords@),
            case_sensitive,
        ),
{
    let ghost targets = effective_patterns(str_views(keywords@), case_sensitive);
    let mut ps: Vec<CompiledPattern> = Vec::new();
    let mut i: usize = 0;
    while i < keywords.len()
        invariant
            i <= keywords@.len(),
            targets == effective_patterns(str_views(keywords@), case_sensitive),
            pattern_views(ps@) == targets.take(i as int),
            forall|k: int| 0 <= k < i ==> regex_compiles(#[trigger] targets[k]),
        decreases keywords@.len() - i,
    {
        let src = if case_sensitive {
            keywords[i].clone()
        } else {
            let mut s = "(?i)".to_owned();
            s.append(keywords[i].as_str());
            s
        };
        assert(src@ == targets[i as int]);
        match regex_compile(src) {
            Some(p) => {
                let ghost pre = ps@;
                ps.push(p);
                proof {
                    assert(pattern_views(pre).len() == pre.len());
                    assert(pre.len() == i);
                    assert(ps@ == pre.push(ps@[i as int]));
                    assert forall|k: int| 0 <= k < ps@.len() implies pattern_views(ps@)[k]
                        == targets.take(i + 1)[k] by {
                        if k < i {
                            assert(pattern_views(pre)[k] == targets[k]);
                            assert(ps@[k] == pre[k]);
                        } else {
                            assert(ps@[k].pattern() == targets[i as int]);
                        }
                    }
                    assert(pattern_views(ps@) =~= targets.take(i + 1));
                }
            },
            None => {
                return None;
            },
        }
        i = i + 1;
    }
    proof {
        assert(targets.take(keywords@.len() as int) =~= targets);
    }
    Some(ps)
}

} // verus!
