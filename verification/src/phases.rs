//! Extraction phases and the phase-selector parser.
//!
//! A selector is a comma-separated list of tokens such as
//! `metadata,dependencies`; tokens are trimmed of surrounding ASCII
//! whitespace, unrecognized tokens are silently dropped, and the surviving
//! tokens name the phases to extract, in selector order.

use vstd::prelude::*;
use crate::bytes::{ascii_seq, ascii_bytes, bytes_eq, copy_range};

verus! {

/// One category of fact extraction, each with its own fixed output schema.
#[derive(Clone, Copy, PartialEq, Eq, Structural, Debug)]
pub enum ExtractionPhase {
    ProjectMetadata,
    DependencyAnalysis,
    SourceCodeAnalysis,
    BuildExtractionPhase,
    EcosystemAnalysis,
    VersionHistory,
}

pub const COMMA: u8 = 44;

/// ASCII whitespace stripped from the ends of a selector token.
pub open spec fn is_ws(b: u8) -> bool {
    b == 32 || b == 9 || b == 10 || b == 13
}

/// The selector token that names a phase.
pub open spec fn spec_phase_token(p: ExtractionPhase) -> Seq<u8> {
    match p {
        ExtractionPhase::ProjectMetadata => ascii_seq("metadata"@),
        ExtractionPhase::DependencyAnalysis => ascii_seq("dependencies"@),
        ExtractionPhase::SourceCodeAnalysis => ascii_seq("source_code"@),
        ExtractionPhase::BuildExtractionPhase => ascii_seq("build"@),
        ExtractionPhase::EcosystemAnalysis => ascii_seq("ecosystem"@),
        ExtractionPhase::VersionHistory => ascii_seq("version_history"@),
    }
}

/// The phase a trimmed token selects, if any.
pub open spec fn spec_phase_of_token(t: Seq<u8>) -> Option<ExtractionPhase> {
    if t == spec_phase_token(ExtractionPhase::ProjectMetadata) {
        Some(ExtractionPhase::ProjectMetadata)
    } else if t == spec_phase_token(ExtractionPhase::DependencyAnalysis) {
        Some(ExtractionPhase::DependencyAnalysis)
    } else if t == spec_phase_token(ExtractionPhase::SourceCodeAnalysis) {
        Some(ExtractionPhase::SourceCodeAnalysis)
    } else if t == spec_phase_token(ExtractionPhase::BuildExtractionPhase) {
        Some(ExtractionPhase::BuildExtractionPhase)
    } else if t == spec_phase_token(ExtractionPhase::EcosystemAnalysis) {
        Some(ExtractionPhase::EcosystemAnalysis)
    } else if t == spec_phase_token(ExtractionPhase::VersionHistory) {
        Some(ExtractionPhase::VersionHistory)
    } else {
        None
    }
}

/// Length of the selector's first token: the index of the first comma, or
/// the whole length when no comma occurs.
pub open spec fn token_end(s: Seq<u8>) -> int
    decreases s.len(),
{
    if s.len() == 0 {
        0
    } else if s[0] == COMMA {
        0
    } else {
        1 + token_end(s.skip(1))
    }
}

pub proof fn lemma_token_end(s: Seq<u8>)
    ensures
        0 <= token_end(s) <= s.len(),
        token_end(s) < s.len() ==> s[token_end(s)] == COMMA,
        forall|j: int| 0 <= j < token_end(s) ==> s[j] != COMMA,
    decreases s.len(),
{
    if s.len() == 0 {
    } else if s[0] == COMMA {
    } else {
        lemma_token_end(s.skip(1));
        let e = token_end(s);
        assert(e == 1 + token_end(s.skip(1)));
        assert forall|j: int| 0 <= j < e implies s[j] != COMMA by {
            if j > 0 {
                assert(s.skip(1)[j - 1] == s[j]);
            }
        }
        if e < s.len() {
            assert(s.skip(1)[e - 1] == s[e]);
        }
    }
}

pub proof fn lemma_token_end_unique(s: Seq<u8>, e: int)
    requires
        0 <= e <= s.len(),
        e < s.len() ==> s[e] == COMMA,
        forall|j: int| 0 <= j < e ==> s[j] != COMMA,
    ensures
        token_end(s) == e,
    decreases s.len(),
{
    if s.len() == 0 {
    } else if s[0] == COMMA {
        if e > 0 {
            assert(s[0] != COMMA);
        }
    } else {
        assert(e >= 1) by {
            if e == 0 {
                assert(s[0] == COMMA);
            }
        }
        assert forall|j: int| 0 <= j < e - 1 implies s.skip(1)[j] != COMMA by {
            assert(s.skip(1)[j] == s[j + 1]);
        }
        if e - 1 < s.skip(1).len() {
            assert(s.skip(1)[e - 1] == s[e]);
        }
        lemma_token_end_unique(s.skip(1), e - 1);
    }
}

/// The token with leading ASCII whitespace removed.
pub open spec fn ltrim(s: Seq<u8>) -> Seq<u8>
    decreases s.len(),
{
    if s.len() > 0 && is_ws(s[0]) {
        ltrim(s.skip(1))
    } else {
        s
    }
}

/// The token with trailing ASCII whitespace removed.
pub open spec fn rtrim(s: Seq<u8>) -> Seq<u8>
    decreases s.len(),
{
    if s.len() > 0 && is_ws(s[s.len() - 1]) {
        rtrim(s.take(s.len() - 1))
    } else {
        s
    }
}

/// The token with whitespace removed from both ends.
pub open spec fn trim(s: Seq<u8>) -> Seq<u8> {
    rtrim(ltrim(s))
}

proof fn lemma_ltrim_is_skip(s: Seq<u8>, k: int)
    requires
        0 <= k <= s.len(),
        forall|j: int| 0 <= j < k ==> is_ws(s[j]),
        k < s.len() ==> !is_ws(s[k]),
    ensures
        ltrim(s) == s.skip(k),
    decreases s.len(),
{
    if k == 0 {
        if s.len() > 0 && is_ws(s[0]) {
            assert(false);
        }
        assert(s.skip(0) =~= s);
    } else {
        assert(is_ws(s[0]));
        assert forall|j: int| 0 <= j < k - 1 implies is_ws(s.skip(1)[j]) by {
            assert(s.skip(1)[j] == s[j + 1]);
        }
        if k - 1 < s.skip(1).len() {
            assert(s.skip(1)[k - 1] == s[k]);
        }
        lemma_ltrim_is_skip(s.skip(1), k - 1);
        assert(s.skip(1).skip(k - 1) =~= s.skip(k));
    }
}

proof fn lemma_rtrim_is_take(s: Seq<u8>, m: int)
    requires
        0 <= m <= s.len(),
        forall|j: int| m <= j < s.len() ==> is_ws(s[j]),
        m > 0 ==> !is_ws(s[m - 1]),
    ensures
        rtrim(s) == s.take(m),
    decreases s.len(),
{
    if m == s.len() {
        if s.len() > 0 && is_ws(s[s.len() - 1]) {
            assert(false);
        }
        assert(s.take(s.len() as int) =~= s);
    } else {
        assert(is_ws(s[s.len() - 1]));
        let t = s.take(s.len() - 1);
        assert forall|j: int| m <= j < t.len() implies is_ws(t[j]) by {
            assert(t[j] == s[j]);
        }
        if m > 0 {
            assert(t[m - 1] == s[m - 1]);
        }
        lemma_rtrim_is_take(t, m);
        assert(t.take(m) =~= s.take(m));
    }
}

/// Removes leading and trailing ASCII whitespace from a token.
pub fn trim_token(t: &[u8]) -> (r: Vec<u8>)
    ensures
        r@ == trim(t@),
{
    let mut lo: usize = 0;
    while lo < t.len() && (t[lo] == 32 || t[lo] == 9 || t[lo] == 10 || t[lo] == 13)
        invariant
            lo <= t@.len(),
            forall|j: int| 0 <= j < lo ==> is_ws(t@[j]),
        decreases t@.len() - lo,
    {
        lo = lo + 1;
    }
    proof {
        lemma_ltrim_is_skip(t@, lo as int);
    }
    let mut hi: usize = t.len();
    while hi > lo && (t[hi - 1] == 32 || t[hi - 1] == 9 || t[hi - 1] == 10 || t[hi - 1] == 13)
        invariant
            lo <= hi <= t@.len(),
            forall|j: int| hi <= j < t@.len() ==> is_ws(t@[j]),
        decreases hi,
    {
        hi = hi - 1;
    }
    proof {
        let lt = t@.skip(lo as int);
        assert forall|j: int| hi - lo <= j < lt.len() implies is_ws(lt[j]) by {
            assert(lt[j] == t@[j + lo]);
        }
        if hi > lo {
            assert(lt[hi - lo - 1] == t@[hi - 1]);
        }
        lemma_rtrim_is_take(lt, hi - lo);
        assert(lt.take(hi - lo) =~= t@.subrange(lo as int, hi as int));
    }
    copy_range(t, lo, hi)
}

/// The phase a token selects, if any; the token must already be trimmed.
pub fn phase_of_token(t: &[u8]) -> (r: Option<ExtractionPhase>)
    ensures
        r == spec_phase_of_token(t@),
{
    proof {
        reveal_strlit("metadata");
        reveal_strlit("dependencies");
        reveal_strlit("source_code");
        reveal_strlit("build");
        reveal_strlit("ecosystem");
        reveal_strlit("version_history");
    }
    let m = ascii_bytes("metadata");
    if bytes_eq(t, m.as_slice()) {
        return Some(ExtractionPhase::ProjectMetadata);
    }
    let d = ascii_bytes("dependencies");
    if bytes_eq(t, d.as_slice()) {
        return Some(ExtractionPhase::DependencyAnalysis);
    }
    let s = ascii_bytes("source_code");
    if bytes_eq(t, s.as_slice()) {
        return Some(ExtractionPhase::SourceCodeAnalysis);
    }
    let b = ascii_bytes("build");
    if bytes_eq(t, b.as_slice()) {
        return Some(ExtractionPhase::BuildExtractionPhase);
    }
    let e = ascii_bytes("ecosystem");
    if bytes_eq(t, e.as_slice()) {
        return Some(ExtractionPhase::EcosystemAnalysis);
    }
    let v = ascii_bytes("version_history");
    if bytes_eq(t, v.as_slice()) {
        return Some(ExtractionPhase::VersionHistory);
    }
    None
}

/// The phases a whole selector names, in order, unknown tokens dropped.
pub open spec fn spec_parse_phases(s: Seq<u8>) -> Seq<ExtractionPhase>
    decreases s.len(),
    via spec_parse_phases_dec
{
    let e = token_end(s);
    let here = match spec_phase_of_token(trim(s.take(e))) {
        Some(p) => seq![p],
        None => Seq::<ExtractionPhase>::empty(),
    };
    if e == s.len() {
        here
    } else {
        here + spec_parse_phases(s.skip(e + 1))
    }
}

#[via_fn]
proof fn spec_parse_phases_dec(s: Seq<u8>) {
    lemma_token_end(s);
}

/// Parses a comma-separated phase selector: tokens are trimmed, unknown
/// tokens are silently dropped, and the selected phases come back in
/// selector order.
pub fn parse_phases(selector: &[u8]) -> (r: Vec<ExtractionPhase>)
    ensures
        r@ == spec_parse_phases(selector@),
{
    let s = selector;
    proof {
        assert(s@.skip(0) =~= s@);
    }
    let mut r: Vec<ExtractionPhase> = Vec::new();
    let mut pos: usize = 0;
    let mut done: bool = false;
    while !done
        invariant
            pos <= s@.len(),
            !done ==> spec_parse_phases(s@) == r@ + spec_parse_phases(s@.skip(pos as int)),
            done ==> r@ == spec_parse_phases(s@),
        decreases s@.len() - pos + if done { 0int } else { 1int },
    {
        let ghost suf = s@.skip(pos as int);
        let mut i: usize = pos;
        while i < s.len() && s[i] != 44
            invariant
                pos <= i <= s@.len(),
                forall|j: int| pos <= j < i ==> s@[j] != COMMA,
            decreases s@.len() - i,
        {
            i = i + 1;
        }
        proof {
            assert forall|j: int| 0 <= j < i - pos implies suf[j] != COMMA by {
                assert(suf[j] == s@[j + pos]);
            }
            if (i as int) - (pos as int) < suf.len() {
                assert(suf[i - pos] == s@[i as int]);
            }
            lemma_token_end_unique(suf, i - pos);
            assert(suf.take(i - pos) =~= s@.subrange(pos as int, i as int));
        }
        let raw = copy_range(s, pos, i);
        let tok = trim_token(raw.as_slice());
        match phase_of_token(tok.as_slice()) {
            Some(p) => { r.push(p); },
            None => {},
        }
        if i == s.len() {
            done = true;
        } else {
            proof {
                assert(suf.skip(i - pos + 1) =~= s@.skip(i + 1));
            }
            pos = i + 1;
        }
    }
    r
}

/// The file name the Columnar Writer uses for a phase's output table: the
/// phase's selector token.
pub fn phase_file_name(p: ExtractionPhase) -> (r: Vec<u8>)
    ensures
        r@ == spec_phase_token(p),
{
    proof {
        reveal_strlit("metadata");
        reveal_strlit("dependencies");
        reveal_strlit("source_code");
        reveal_strlit("build");
        reveal_strlit("ecosystem");
        reveal_strlit("version_history");
    }
    match p {
        ExtractionPhase::ProjectMetadata => ascii_bytes("metadata"),
        ExtractionPhase::DependencyAnalysis => ascii_bytes("dependencies"),
        ExtractionPhase::SourceCodeAnalysis => ascii_bytes("source_code"),
        ExtractionPhase::BuildExtractionPhase => ascii_bytes("build"),
        ExtractionPhase::EcosystemAnalysis => ascii_bytes("ecosystem"),
        ExtractionPhase::VersionHistory => ascii_bytes("version_history"),
    }
}

} // verus!
