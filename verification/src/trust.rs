//! Trust tiers and the host-based trust classifier.
//!
//! A URL's tier is derived from its host alone: a deny list of low-signal
//! community platforms wins over an allow list of documentation, government
//! and academic domains; everything else is `Medium`, and a URL without a
//! host is `Low`.

use vstd::prelude::*;

use crate::text::{
    chars_contain, chars_eq, chars_end_with, chars_of, contains_spec, ends_with_spec, lower_chars,
    lower_seq, trim_chars, trim_spec,
};
use crate::urls::{ParsedUrl, UrlModel};

verus! {

/// Coarse per-host reputation; the order drives frontier priority, `High`
/// first.
#[derive(Debug, Clone, Copy, PartialEq, Eq, PartialOrd, Ord, Hash, Structural)]
pub enum TrustTier {
    High,
    Medium,
    Low,
}

/// The error of parsing a `TrustTier` from text.
#[derive(Debug, Clone, Copy, PartialEq, Eq, Structural)]
pub struct ParseTrustTierError;

impl ParseTrustTierError {
    /// A human-readable description of the error.
    pub fn message(&self) -> &'static str {
        "invalid TrustTier"
    }
}

/// The display name of a tier.
pub open spec fn tier_str_spec(t: TrustTier) -> Seq<char> {
    match t {
        TrustTier::High => "High"@,
        TrustTier::Medium => "Medium"@,
        TrustTier::Low => "Low"@,
    }
}

/// The rank a tier sorts by: `High` before `Medium` before `Low`.
pub open spec fn tier_rank(t: TrustTier) -> int {
    match t {
        TrustTier::High => 0,
        TrustTier::Medium => 1,
        TrustTier::Low => 2,
    }
}

impl TrustTier {
    pub fn as_str(self) -> (r: &'static str)
        ensures
            r@ == tier_str_spec(self),
    {
        match self {
            TrustTier::High => "High",
            TrustTier::Medium => "Medium",
            TrustTier::Low => "Low",
        }
    }

    /// The tier's rank for sorting.
    pub fn rank(self) -> (r: u8)
        ensures
            r as int == tier_rank(self),
    {
        match self {
            TrustTier::High => 0,
            TrustTier::Medium => 1,
            TrustTier::Low => 2,
        }
    }

    /// Parses a tier name, case-insensitively and ignoring surrounding white
    /// space; empty or unknown text is rejected.
    pub fn from_str(s: &str) -> (r: Result<TrustTier, ParseTrustTierError>)
        ensures
            r == tier_of_str_spec(s@),
    {
        let t = trim_chars(&chars_of(s));
        if t.len() == 0 {
            return Err(ParseTrustTierError);
        }
        let tl = lower_chars(&t);
        if chars_eq(&tl, &chars_of("high")) {
            Ok(TrustTier::High)
        } else if chars_eq(&tl, &chars_of("medium")) {
            Ok(TrustTier::Medium)
        } else if chars_eq(&tl, &chars_of("low")) {
            Ok(TrustTier::Low)
        } else {
            Err(ParseTrustTierError)
        }
    }
}

/// What parsing a tier name yields: the tier whose lowercased, trimmed name
/// matches, or an error for empty or unknown text.
pub open spec fn tier_of_str_spec(s: Seq<char>) -> Result<TrustTier, ParseTrustTierError> {
    let t = lower_seq(trim_spec(s));
    if trim_spec(s).len() == 0 {
        Err(ParseTrustTierError)
    } else if t == "high"@ {
        Ok(TrustTier::High)
    } else if t == "medium"@ {
        Ok(TrustTier::Medium)
    } else if t == "low"@ {
        Ok(TrustTier::Low)
    } else {
        Err(ParseTrustTierError)
    }
}

/// The tier of a lowercased host name: the deny list first, the allow lists
/// afterwards, `Medium` for everything unmatched.
pub open spec fn classify_host_spec(h: Seq<char>) -> TrustTier {
    if h == "reddit.com"@ || ends_with_spec(h, ".reddit.com"@) || h == "x.com"@ || ends_with_spec(
        h,
        ".x.com"@,
    ) {
        TrustTier::Low
    } else if h == "rust-lang.org"@ || ends_with_spec(h, ".rust-lang.org"@) || h
        == "doc.rust-lang.org"@ || h == "docs.rs"@ {
        TrustTier::High
    } else if ends_with_spec(h, ".gov"@) || contains_spec(h, ".gov."@) || ends_with_spec(h, ".edu"@)
        || contains_spec(h, ".edu."@) || ends_with_spec(h, ".ac.jp"@) || contains_spec(h, ".ac."@)
        || ends_with_spec(h, ".go.jp"@) || contains_spec(h, ".go.jp"@) {
        TrustTier::High
    } else {
        TrustTier::Medium
    }
}

/// The tier of a URL: its host's tier, or `Low` when it has no host.
pub open spec fn classify_spec(u: UrlModel) -> TrustTier {
    match u.host {
        None => TrustTier::Low,
        Some(_) => classify_host_spec(lower_seq(u.host_text)),
    }
}

/// Classifies a URL into a trust tier from its host alone; total and
/// deterministic.
pub fn classify_trust_tier(url: &ParsedUrl) -> (t: TrustTier)
    ensures
        t == classify_spec(url@),
{
    if url.host.is_none() {
        return TrustTier::Low;
    }
    let h = lower_chars(&chars_of(url.host_text.as_str()));
    if chars_eq(&h, &chars_of("reddit.com")) || chars_end_with(&h, &chars_of(".reddit.com"))
        || chars_eq(&h, &chars_of("x.com")) || chars_end_with(&h, &chars_of(".x.com")) {
        return TrustTier::Low;
    }
    if chars_eq(&h, &chars_of("rust-lang.org")) || chars_end_with(&h, &chars_of(".rust-lang.org"))
        || chars_eq(&h, &chars_of("doc.rust-lang.org")) || chars_eq(&h, &chars_of("docs.rs")) {
        return TrustTier::High;
    }
    if chars_end_with(&h, &chars_of(".gov")) || chars_contain(&h, &chars_of(".gov."))
        || chars_end_with(&h, &chars_of(".edu")) || chars_contain(&h, &chars_of(".edu."))
        || chars_end_with(&h, &chars_of(".ac.jp")) || chars_contain(&h, &chars_of(".ac."))
        || chars_end_with(&h, &chars_of(".go.jp")) || chars_contain(&h, &chars_of(".go.jp")) {
        return TrustTier::High;
    }
    TrustTier::Medium
}

} // verus!
