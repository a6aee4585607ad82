//! Request bookkeeping for observability.
//!
//! The counters here back the gateway's metrics endpoint: process-wide
//! request and error totals, and the path normalization that bounds the
//! cardinality of the per-path series. Rendering in the exposition text
//! format is left to the metrics encoder outside the library.

use vstd::prelude::*;

use crate::spec_is_error_status;
use crate::text::{
    is_digit_char, is_hex_digit_char, join_str, spec_is_digit, spec_is_hex_digit, spec_join,
    spec_split, split_str, views_of,
};
use crate::text::{lemma_split_len, lemma_split_parts_free, lemma_split_join};

verus! {

/// How one path segment is normalized: a non-empty all-digit segment
/// becomes `:id`; a segment of eight or more hex digits becomes `:uuid`;
/// anything else is kept.
pub open spec fn spec_norm_segment(seg: Seq<char>) -> Seq<char> {
    if seg.len() > 0 && (forall|i: int| 0 <= i < seg.len() ==> spec_is_digit(#[trigger] seg[i])) {
        ":id"@
    } else if seg.len() >= 8 && (forall|i: int|
        0 <= i < seg.len() ==> spec_is_hex_digit(#[trigger] seg[i])) {
        ":uuid"@
    } else {
        seg
    }
}

/// Segment-wise normalization of a split path.
pub open spec fn spec_norm_segments(parts: Seq<Seq<char>>) -> Seq<Seq<char>> {
    parts.map_values(|seg: Seq<char>| spec_norm_segment(seg))
}

/// Path normalization: split on `/`, normalize each segment, reassemble.
pub open spec fn spec_normalize_path(p: Seq<char>) -> Seq<char> {
    spec_join(spec_norm_segments(spec_split(p, '/')), seq!['/'])
}

fn norm_segment(seg: &str) -> (r: String)
    ensures
        r@ == spec_norm_segment(seg@),
{
    let n = seg.unicode_len();
    let mut all_digits = true;
    let mut all_hex = true;
    let mut i: usize = 0;
    while i < n
        invariant
            i <= n,
            n == seg@.len(),
            all_digits == (forall|j: int| 0 <= j < i ==> spec_is_digit(#[trigger] seg@[j])),
            all_hex == (forall|j: int| 0 <= j < i ==> spec_is_hex_digit(#[trigger] seg@[j])),
        decreases n - i,
    {
        let c = seg.get_char(i);
        if !is_digit_char(c) {
            all_digits = false;
        }
        if !is_hex_digit_char(c) {
            all_hex = false;
        }
        i = i + 1;
    }
    if n > 0 && all_digits {
        String::from_str(":id")
    } else if n >= 8 && all_hex {
        String::from_str(":uuid")
    } else {
        seg.to_owned()
    }
}

/// Process-wide request counters, plus the path normalization they are
/// recorded under.
pub struct GatewayMetrics {
    /// Requests seen so far (saturating).
    pub total_requests: u64,
    /// Requests answered with status 400 or above (saturating).
    pub total_errors: u64,
}

impl GatewayMetrics {
    /// Fresh counters, both zero.
    pub fn new() -> (r: Self)
        ensures
            r.total_requests == 0,
            r.total_errors == 0,
    {
        GatewayMetrics { total_requests: 0, total_errors: 0 }
    }

    /// Record one finished request: the request total always grows by one,
    /// the error total grows exactly when the status is an error status
    /// (both saturate at `u64::MAX`).
    pub fn record_request(&mut self, status: u16)
        ensures
            final(self).total_requests == if old(self).total_requests < u64::MAX {
                old(self).total_requests + 1
            } else {
                u64::MAX as int
            },
            spec_is_error_status(status) ==> final(self).total_errors == if old(
                self,
            ).total_errors < u64::MAX {
                old(self).total_errors + 1
            } else {
                u64::MAX as int
            },
            !spec_is_error_status(status) ==> final(self).total_errors == old(self).total_errors,
    {
        if self.total_requests < u64::MAX {
            self.total_requests = self.total_requests + 1;
        }
        if status >= 400 && self.total_errors < u64::MAX {
            self.total_errors = self.total_errors + 1;
        }
    }

    /// Requests seen so far.
    pub fn total_requests(&self) -> (r: u64)
        ensures
            r == self.total_requests,
    {
        self.total_requests
    }

    /// Error responses seen so far.
    pub fn total_errors(&self) -> (r: u64)
        ensures
            r == self.total_errors,
    {
        self.total_errors
    }

    /// Normalize a path for use as a metrics label, to bound the number of
    /// distinct series: numeric and hex-identifier segments are replaced by
    /// placeholders.
    pub fn normalize_path(path: &str) -> (r: String)
        ensures
            r@ == spec_normalize_path(path@),
    {
        let parts = split_str(path, '/');
        let mut normed: Vec<String> = Vec::new();
        let mut i: usize = 0;
        while i < parts.len()
            invariant
                i <= parts@.len(),
                views_of(parts@) == spec_split(path@, '/'),
                normed@.len() == i,
                forall|k: int|
                    0 <= k < i ==> (#[trigger] normed@[k])@ == spec_norm_segment(parts@[k]@),
            decreases parts@.len() - i,
        {
            normed.push(norm_segment(parts[i].as_str()));
            i = i + 1;
        }
        let r = join_str(&normed, "/");
        proof {
            reveal_strlit("/");
            assert("/"@ =~= seq!['/']);
            assert(views_of(normed@) =~= spec_norm_segments(spec_split(path@, '/')));
        }
        r
    }
}

/// Normalized segments are fixed points of segment normalization.
proof fn lemma_norm_segment_idempotent(seg: Seq<char>)
    ensures
        spec_norm_segment(spec_norm_segment(seg)) == spec_norm_segment(seg),
{
    reveal_strlit(":id");
    reveal_strlit(":uuid");
    let out = spec_norm_segment(seg);
    if out == ":id"@ || out == ":uuid"@ {
        assert(!spec_is_digit(out[0]));
        assert(!spec_is_hex_digit(out[0]));
    }
}

/// Path normalization is idempotent: normalizing an already-normalized
/// path changes nothing.
pub proof fn lemma_normalize_path_idempotent(p: Seq<char>)
    ensures
        spec_normalize_path(spec_normalize_path(p)) == spec_normalize_path(p),
{
    reveal_strlit(":id");
    reveal_strlit(":uuid");
    let parts = spec_split(p, '/');
    let mapped = spec_norm_segments(parts);
    lemma_split_len(p, '/');
    lemma_split_parts_free(p, '/');
    // Normalized segments contain no separator.
    assert forall|k: int, j: int|
        0 <= k < mapped.len() && 0 <= j < mapped[k].len() implies mapped[k][j] != '/' by {
        assert(mapped[k] == spec_norm_segment(parts[k]));
        if mapped[k] == ":id"@ || mapped[k] == ":uuid"@ {
            assert(mapped[k][j] != '/');
        } else {
            assert(mapped[k] == parts[k]);
        }
    }
    lemma_split_join(mapped, '/');
    assert(spec_split(spec_normalize_path(p), '/') =~~= mapped);
    // A second normalization maps every piece to itself.
    assert forall|k: int|
        0 <= k < mapped.len() implies spec_norm_segments(mapped)[k] == mapped[k] by {
        lemma_norm_segment_idempotent(parts[k]);
    }
    assert(spec_norm_segments(mapped) =~~= mapped);
}

} // verus!
