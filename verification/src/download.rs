//! Verified image download decisions: reading the published `SHA256SUMS` /
//! `SHA512SUMS` file, comparing checksums, and the steps of fetching an image
//! into the cache (reuse a cached copy only when it matches, accept a download
//! only when it matches).

use vstd::prelude::*;
use crate::pvesh::line_spans;
use crate::pvesh::spans_text;
use crate::text::{
    ascii_lower, chars_of, first_where, is_space, is_whitespace, lemma_first_where, split_lines,
    string_of_range, to_lower, trim, trim_range, trim_start, trim_start_range,
};

verus! {

// ---------------------------------------------------------------------------
// SUMS files
// ---------------------------------------------------------------------------

/// The checksum listed for `target` in the lines of a SUMS file. Lines are
/// `<hex> <filename>` (Debian writes `*<filename>` for binary mode); blank
/// lines and `#` comments are skipped. A line with a single field ends the
/// search with no result.
pub open spec fn sums_lookup(lines: Seq<Seq<char>>, target: Seq<char>) -> Option<Seq<char>>
    decreases lines.len(),
{
    if lines.len() == 0 {
        None
    } else {
        let line = trim(lines[0]);
        if line.len() == 0 || line[0] == '#' {
            sums_lookup(lines.drop_first(), target)
        } else {
            let k = first_where(line, is_space(), 0);
            if k >= line.len() {
                None
            } else {
                let hash = trim(line.take(k));
                let rest = trim_start(line.skip(k + 1));
                let name = if rest.len() > 0 && rest[0] == '*' {
                    rest.drop_first()
                } else {
                    rest
                };
                if name == target {
                    Some(hash)
                } else {
                    sums_lookup(lines.drop_first(), target)
                }
            }
        }
    }
}

/// Whether `v[a..b]` equals `w`.
fn range_is(v: &Vec<char>, a: usize, b: usize, w: &Vec<char>) -> (r: bool)
    requires
        a <= b <= v.len(),
    ensures
        r == (v@.subrange(a as int, b as int) == w@),
{
    if b - a != w.len() {
        return false;
    }
    let mut i: usize = 0;
    while i < w.len()
        invariant
            a <= b <= v.len(),
            b - a == w.len(),
            i <= w.len(),
            forall|j: int| 0 <= j < i ==> v@[a + j] == w@[j],
        decreases w.len() - i,
    {
        if v[a + i] != w[i] {
            assert(v@.subrange(a as int, b as int)[i as int] != w@[i as int]);
            return false;
        }
        i = i + 1;
    }
    assert(v@.subrange(a as int, b as int) =~= w@);
    true
}

/// The checksum that a SUMS file lists for `target`; see [`sums_lookup`].
pub fn parse_sums(body: &str, target: &str) -> (r: Option<String>)
    ensures
        match r {
            Some(h) => sums_lookup(split_lines(body@), target@) == Some(h@),
            None => sums_lookup(split_lines(body@), target@) is None,
        },
{
    let v = chars_of(body);
    let t = chars_of(target);
    let spans = line_spans(&v);
    let ghost lines = split_lines(v@);
    let mut k: usize = 0;
    assert(lines.skip(0) =~= lines);
    while k < spans.len()
        invariant
            k <= spans.len(),
            v@ == body@,
            t@ == target@,
            lines == split_lines(v@),
            spans_text(v@, spans@) == lines,
            forall|j: int| 0 <= j < spans@.len() ==> (#[trigger] spans@[j]).0 <= spans@[j].1 <= v.len(),
            sums_lookup(lines, t@) == sums_lookup(lines.skip(k as int), t@),
        decreases spans.len() - k,
    {
        let (a, b) = spans[k];
        let ghost rest_lines = lines.skip(k as int);
        assert(rest_lines[0] == v@.subrange(a as int, b as int));
        assert(rest_lines.drop_first() =~= lines.skip(k + 1));
        let (la, lb) = trim_range(&v, a, b);
        let ghost line = v@.subrange(la as int, lb as int);
        if la == lb || v[la] == '#' {
            k = k + 1;
            continue;
        }
        // The first field ends at the first white space.
        let mut ws = la;
        while ws < lb && !is_whitespace(v[ws])
            invariant
                la <= ws <= lb <= v.len(),
                forall|j: int| la <= j < ws ==> !crate::text::is_ws(v@[j]),
            decreases lb - ws,
        {
            ws = ws + 1;
        }
        proof {
            assert forall|j: int| 0 <= j < ws - la implies !is_space()(#[trigger] line[j]) by {
                assert(line[j] == v@[la + j]);
            }
            if ws < lb {
                assert(line[ws - la] == v@[ws as int]);
            }
            lemma_first_where(line, is_space(), 0, ws - la);
        }
        if ws == lb {
            return None;
        }
        let (ha, hb) = trim_range(&v, la, ws);
        assert(line.take(ws - la) =~= v@.subrange(la as int, ws as int));
        assert(line.skip(ws - la + 1) =~= v@.subrange(ws + 1, lb as int));
        let na0 = trim_start_range(&v, ws + 1, lb);
        let na = if na0 < lb && v[na0] == '*' {
            na0 + 1
        } else {
            na0
        };
        assert(v@.subrange(na as int, lb as int) =~= {
            let rest = v@.subrange(na0 as int, lb as int);
            if rest.len() > 0 && rest[0] == '*' {
                rest.drop_first()
            } else {
                rest
            }
        });
        if range_is(&v, na, lb, &t) {
            return Some(string_of_range(&v, ha, hb));
        }
        k = k + 1;
    }
    proof {
        assert(lines.skip(k as int) =~= Seq::<Seq<char>>::empty());
    }
    None
}

// ---------------------------------------------------------------------------
// Checksums
// ---------------------------------------------------------------------------

/// `str::eq_ignore_ascii_case`.
pub open spec fn same_ignoring_ascii_case(a: Seq<char>, b: Seq<char>) -> bool {
    a.len() == b.len() && forall|i: int| 0 <= i < a.len() ==> ascii_lower(a[i]) == ascii_lower(b[i])
}

/// Whether a computed checksum equals the published one, hex digits compared
/// without regard to case.
pub fn checksum_matches(actual: &str, expected: &str) -> (r: bool)
    ensures
        r == same_ignoring_ascii_case(actual@, expected@),
{
    let a = chars_of(actual);
    let b = chars_of(expected);
    if a.len() != b.len() {
        return false;
    }
    let mut i: usize = 0;
    while i < a.len()
        invariant
            a.len() == b.len(),
            a@ == actual@,
            b@ == expected@,
            i <= a.len(),
            forall|j: int| 0 <= j < i ==> ascii_lower(a@[j]) == ascii_lower(b@[j]),
        decreases a.len() - i,
    {
        if to_lower(a[i]) != to_lower(b[i]) {
            return false;
        }
        i = i + 1;
    }
    true
}

/// The lower-case hex digit of `0 <= n < 16`.
pub open spec fn hex_digit(n: nat) -> char {
    if n < 10 {
        (n + ('0' as u32)) as char
    } else {
        (n - 10 + ('a' as u32)) as char
    }
}

/// Bytes in lower-case hex, two digits per byte, high half first.
pub open spec fn hex_lower(b: Seq<u8>) -> Seq<char>
    decreases b.len(),
{
    if b.len() == 0 {
        Seq::empty()
    } else {
        hex_lower(b.drop_last()) + seq![
            hex_digit((b.last() / 16) as nat),
            hex_digit((b.last() % 16) as nat),
        ]
    }
}

/// Calls `hex::encode`, which writes each byte as two lower-case hex digits,
/// high half first.
#[verifier::external_body]
fn hex_encode(bytes: &[u8]) -> (r: String)
    ensures
        r@ == hex_lower(bytes@),
{
    hex::encode(bytes)
}

/// A digest in the lower-case hex form that SUMS files use.
pub fn digest_hex(digest: &[u8]) -> (r: String)
    ensures
        r@ == hex_lower(digest@),
{
    hex_encode(digest)
}

// ---------------------------------------------------------------------------
// The steps of fetching an image
// ---------------------------------------------------------------------------

/// Where a fetch stands.
pub enum FetchState {
    /// Nothing done yet.
    Start,
    /// Waiting for the published checksum.
    AwaitingExpected,
    /// Waiting for the checksum of the cached copy, if there is one.
    AwaitingCache(String),
    /// Waiting for the checksum of a fresh download.
    AwaitingDownload(String),
    /// The image is in the cache and verified (or, in a dry run, nothing is to be done).
    Done,
    /// The fetch failed.
    Failed,
}

/// What the caller observed.
pub enum FetchEvent {
    /// The fetch begins; in a dry run nothing is downloaded or written.
    Begin { dry_run: bool },
    /// The checksum that the SUMS file lists for the image.
    ExpectedHash(String),
    /// No cached copy exists.
    CacheAbsent,
    /// The digest of the cached copy.
    CacheDigest(Vec<u8>),
    /// The digest of the freshly downloaded copy.
    DownloadDigest(Vec<u8>),
}

/// What the caller is to do next.
pub enum FetchAction {
    /// Show what would be downloaded; nothing else.
    ReportDryRun,
    /// Create the cache directory and read the SUMS file.
    FetchExpectedHash,
    /// Hash the cached copy if there is one.
    CheckCache,
    /// Download the image (there was no cached copy).
    Download,
    /// Remove the cached copy, whose checksum differs, and download the image.
    DiscardCachedAndDownload,
    /// Use the cached copy: its checksum matches.
    UseCached,
    /// Keep the download: its checksum matches.
    AcceptDownload,
    /// Remove the download and report both checksums: they differ.
    RejectDownload { expected: String, actual: String },
    /// The event does not belong to this state.
    Abort,
}

/// The step from `state` on `event`, as `(next state, action)`.
pub open spec fn fetch_step_spec(state: FetchState, event: FetchEvent, next: FetchState, action: FetchAction) -> bool {
    match (state, event) {
        (FetchState::Start, FetchEvent::Begin { dry_run }) => if dry_run {
            next is Done && action is ReportDryRun
        } else {
            next is AwaitingExpected && action is FetchExpectedHash
        },
        (FetchState::AwaitingExpected, FetchEvent::ExpectedHash(e)) => {
            &&& next matches FetchState::AwaitingCache(x) && x@ == e@
            &&& action is CheckCache
        },
        (FetchState::AwaitingCache(x), FetchEvent::CacheAbsent) => {
            &&& next matches FetchState::AwaitingDownload(y) && y@ == x@
            &&& action is Download
        },
        (FetchState::AwaitingCache(x), FetchEvent::CacheDigest(d)) => if same_ignoring_ascii_case(
            hex_lower(d@),
            x@,
        ) {
            next is Done && action is UseCached
        } else {
            &&& next matches FetchState::AwaitingDownload(y) && y@ == x@
            &&& action is DiscardCachedAndDownload
        },
        (FetchState::AwaitingDownload(x), FetchEvent::DownloadDigest(d)) => if same_ignoring_ascii_case(
            hex_lower(d@),
            x@,
        ) {
            next is Done && action is AcceptDownload
        } else {
            &&& next is Failed
            &&& action matches FetchAction::RejectDownload { expected, actual } && expected@ == x@
                && actual@ == hex_lower(d@)
        },
        _ => next is Failed && action is Abort,
    }
}

fn copy_string(s: &String) -> (r: String)
    ensures
        r@ == s@,
{
    s.clone()
}

/// One step of fetching an image; see [`fetch_step_spec`].
pub fn fetch_step(state: &FetchState, event: &FetchEvent) -> (r: (FetchState, FetchAction))
    ensures
        fetch_step_spec(*state, *event, r.0, r.1),
{
    match (state, event) {
        (FetchState::Start, FetchEvent::Begin { dry_run }) => {
            if *dry_run {
                (FetchState::Done, FetchAction::ReportDryRun)
            } else {
                (FetchState::AwaitingExpected, FetchAction::FetchExpectedHash)
            }
        },
        (FetchState::AwaitingExpected, FetchEvent::ExpectedHash(e)) => {
            (FetchState::AwaitingCache(copy_string(e)), FetchAction::CheckCache)
        },
        (FetchState::AwaitingCache(x), FetchEvent::CacheAbsent) => {
            (FetchState::AwaitingDownload(copy_string(x)), FetchAction::Download)
        },
        (FetchState::AwaitingCache(x), FetchEvent::CacheDigest(d)) => {
            let a = digest_hex(d.as_slice());
            if checksum_matches(a.as_str(), x.as_str()) {
                (FetchState::Done, FetchAction::UseCached)
            } else {
                (FetchState::AwaitingDownload(copy_string(x)), FetchAction::DiscardCachedAndDownload)
            }
        },
        (FetchState::AwaitingDownload(x), FetchEvent::DownloadDigest(d)) => {
            let a = digest_hex(d.as_slice());
            if checksum_matches(a.as_str(), x.as_str()) {
                (FetchState::Done, FetchAction::AcceptDownload)
            } else {
                (FetchState::Failed, FetchAction::RejectDownload { expected: copy_string(x), actual: a })
            }
        },
        _ => (FetchState::Failed, FetchAction::Abort),
    }
}

/// An image is only ever taken (from the cache or from a download) when its
/// checksum matches the published one, compared without regard to ASCII case.
pub proof fn lemma_image_taken_only_when_checksum_matches(
    state: FetchState,
    event: FetchEvent,
    next: FetchState,
    action: FetchAction,
)
    requires
        fetch_step_spec(state, event, next, action),
        action is UseCached || action is AcceptDownload,
    ensures
        exists|expected: String, digest: Vec<u8>|
            {
                &&& (state == FetchState::AwaitingCache(expected) || state
                    == FetchState::AwaitingDownload(expected))
                &&& (event == FetchEvent::CacheDigest(digest) || event
                    == FetchEvent::DownloadDigest(digest))
                &&& same_ignoring_ascii_case(hex_lower(digest@), expected@)
            },
{
    match (state, event) {
        (FetchState::AwaitingCache(x), FetchEvent::CacheDigest(d)) => {
            assert(same_ignoring_ascii_case(hex_lower(d@), x@));
        },
        (FetchState::AwaitingDownload(x), FetchEvent::DownloadDigest(d)) => {
            assert(same_ignoring_ascii_case(hex_lower(d@), x@));
        },
        _ => {},
    }
}

/// A dry run does nothing but report: it ends at once.
pub proof fn lemma_dry_run_does_nothing(next: FetchState, action: FetchAction)
    requires
        fetch_step_spec(FetchState::Start, FetchEvent::Begin { dry_run: true }, next, action),
    ensures
        next is Done,
        action is ReportDryRun,
{
}

} // verus!
