//! Plain-value types and logic around the language-model oracle: the
//! reasoning-effort knob, which models support which request fields, and the
//! filtering of what the oracle hands back (search hits and child-link
//! selections) into admissible, deduplicated lists.
//!
//! The oracle's transport and wire protocol live outside the library; the
//! functions here work on the values already pulled out of a response.

use vstd::prelude::*;

use crate::text::{
    chars_eq, chars_of, chars_start_with, lower_chars, lower_seq, starts_with_spec, str_eq,
    trim_chars, trim_spec,
};
use crate::trust::{tier_of_str_spec, TrustTier};
use crate::urls::{parse_url, url_parse_of, ParsedUrl, UrlModel};

verus! {

/// How much reasoning the oracle is asked to spend.
#[derive(Debug, Clone, Copy, PartialEq, Eq, Structural)]
pub enum ReasoningEffort {
    /// No reasoning requested (serialized as `none`).
    NoEffort,
    Minimal,
    Low,
    Medium,
    High,
    XHigh,
}

/// The error of parsing a `ReasoningEffort` from text.
#[derive(Debug, Clone, Copy, PartialEq, Eq, Structural)]
pub struct ParseReasoningEffortError;

impl ParseReasoningEffortError {
    /// A human-readable description of the error.
    pub fn message(&self) -> &'static str {
        "invalid ReasoningEffort"
    }
}

/// The wire name of an effort level.
pub open spec fn effort_str_spec(e: ReasoningEffort) -> Seq<char> {
    match e {
        ReasoningEffort::NoEffort => "none"@,
        ReasoningEffort::Minimal => "minimal"@,
        ReasoningEffort::Low => "low"@,
        ReasoningEffort::Medium => "medium"@,
        ReasoningEffort::High => "high"@,
        ReasoningEffort::XHigh => "xhigh"@,
    }
}

/// What parsing an effort name yields: the level whose lowercased, trimmed
/// name matches (`x-high` is an alias of `xhigh`), or an error.
pub open spec fn effort_of_str_spec(s: Seq<char>) -> Result<
    ReasoningEffort,
    ParseReasoningEffortError,
> {
    let t = lower_seq(trim_spec(s));
    if t == "none"@ {
        Ok(ReasoningEffort::NoEffort)
    } else if t == "minimal"@ {
        Ok(ReasoningEffort::Minimal)
    } else if t == "low"@ {
        Ok(ReasoningEffort::Low)
    } else if t == "medium"@ {
        Ok(ReasoningEffort::Medium)
    } else if t == "high"@ {
        Ok(ReasoningEffort::High)
    } else if t == "xhigh"@ || t == "x-high"@ {
        Ok(ReasoningEffort::XHigh)
    } else {
        Err(ParseReasoningEffortError)
    }
}

impl ReasoningEffort {
    pub fn as_str(self) -> (r: &'static str)
        ensures
            r@ == effort_str_spec(self),
    {
        match self {
            ReasoningEffort::NoEffort => "none",
            ReasoningEffort::Minimal => "minimal",
            ReasoningEffort::Low => "low",
            ReasoningEffort::Medium => "medium",
            ReasoningEffort::High => "high",
            ReasoningEffort::XHigh => "xhigh",
        }
    }

    /// Parses an effort name, case-insensitively and ignoring surrounding
    /// white space.
    pub fn from_str(s: &str) -> (r: Result<ReasoningEffort, ParseReasoningEffortError>)
        ensures
            r == effort_of_str_spec(s@),
    {
        let t = trim_chars(&chars_of(s));
        let tl = lower_chars(&t);
        if chars_eq(&tl, &chars_of("none")) {
            Ok(ReasoningEffort::NoEffort)
        } else if chars_eq(&tl, &chars_of("minimal")) {
            Ok(ReasoningEffort::Minimal)
        } else if chars_eq(&tl, &chars_of("low")) {
            Ok(ReasoningEffort::Low)
        } else if chars_eq(&tl, &chars_of("medium")) {
            Ok(ReasoningEffort::Medium)
        } else if chars_eq(&tl, &chars_of("high")) {
            Ok(ReasoningEffort::High)
        } else if chars_eq(&tl, &chars_of("xhigh")) || chars_eq(&tl, &chars_of("x-high")) {
            Ok(ReasoningEffort::XHigh)
        } else {
            Err(ParseReasoningEffortError)
        }
    }
}

impl Default for ReasoningEffort {
    /// The default effort is `medium`.
    fn default() -> (r: Self)
        ensures
            r == ReasoningEffort::Medium,
    {
        ReasoningEffort::Medium
    }
}

/// Whether a model name names a reasoning model: `gpt-5*`, or `o` followed by
/// a digit, after trimming.
pub open spec fn supports_reasoning_spec(model: Seq<char>) -> bool {
    let t = trim_spec(model);
    starts_with_spec(t, "gpt-5"@) || (t.len() >= 2 && t[0] == 'o' && '0' <= t[1] && t[1] <= '9')
}

pub fn model_supports_reasoning(model: &str) -> (r: bool)
    ensures
        r == supports_reasoning_spec(model@),
{
    let t = trim_chars(&chars_of(model));
    if chars_start_with(&t, &chars_of("gpt-5")) {
        return true;
    }
    t.len() >= 2 && t[0] == 'o' && '0' <= t[1] && t[1] <= '9'
}

/// Reasoning models reject a temperature field; every other model takes one.
pub fn model_supports_temperature(model: &str) -> (r: bool)
    ensures
        r == !supports_reasoning_spec(model@),
{
    !model_supports_reasoning(model)
}

/// The base URL with a trailing slash guaranteed, so that joining a relative
/// endpoint path keeps the base's last segment.
pub open spec fn trailing_slash_spec(s: Seq<char>) -> Seq<char> {
    if s.len() > 0 && s.last() == '/' {
        s
    } else {
        s.push('/')
    }
}

/// Appends a `/` to `url` unless it already ends with one.
pub fn ensure_trailing_slash(url: &str) -> (r: String)
    ensures
        r@ == trailing_slash_spec(url@),
{
    let cs = chars_of(url);
    let n: usize = cs.len();
    if n > 0 && cs[n - 1] == '/' {
        let mut out: Vec<char> = Vec::new();
        crate::text::push_range(&mut out, &cs, 0, n);
        proof {
            assert(cs@.subrange(0, n as int) =~= cs@);
            assert(out@ =~= cs@);
        }
        return crate::text::string_from_chars(&out);
    }
    let mut out = cs;
    out.push('/');
    crate::text::string_from_chars(&out)
}

/// One result of the oracle's seed search, already parsed and classified.
#[derive(Debug)]
pub struct SearchHit {
    pub url: ParsedUrl,
    pub title: Option<String>,
    pub trust_tier: TrustTier,
}

/// The mathematical shape of a search hit.
pub struct HitModel {
    pub url: UrlModel,
    pub title: Option<Seq<char>>,
    pub trust_tier: TrustTier,
}

impl View for SearchHit {
    type V = HitModel;

    open spec fn view(&self) -> HitModel {
        HitModel {
            url: self.url@,
            title: match self.title {
                Some(t) => Some(t@),
                None => None,
            },
            trust_tier: self.trust_tier,
        }
    }
}

impl DeepView for SearchHit {
    type V = HitModel;

    open spec fn deep_view(&self) -> HitModel {
        self.view()
    }
}

/// One child link the oracle selected, already parsed.
#[derive(Debug)]
pub struct SelectedLink {
    pub url: ParsedUrl,
    pub trust_tier: TrustTier,
}

/// The mathematical shape of a selected link.
pub struct SelModel {
    pub url: UrlModel,
    pub trust_tier: TrustTier,
}

impl View for SelectedLink {
    type V = SelModel;

    open spec fn view(&self) -> SelModel {
        SelModel { url: self.url@, trust_tier: self.trust_tier }
    }
}

impl DeepView for SelectedLink {
    type V = SelModel;

    open spec fn deep_view(&self) -> SelModel {
        self.view()
    }
}

/// A search result as it comes off the wire: url and title text, and the
/// oracle's own tier judgment, still unparsed.
#[derive(Debug)]
pub struct RawHit {
    pub url: String,
    pub title: Option<String>,
    pub trust_tier: Option<String>,
}

/// The mathematical shape of a raw hit.
pub struct RawHitModel {
    pub url: Seq<char>,
    pub title: Option<Seq<char>>,
    pub trust_tier: Option<Seq<char>>,
}

impl View for RawHit {
    type V = RawHitModel;

    open spec fn view(&self) -> RawHitModel {
        RawHitModel {
            url: self.url@,
            title: match self.title {
                Some(t) => Some(t@),
                None => None,
            },
            trust_tier: match self.trust_tier {
                Some(t) => Some(t@),
                None => None,
            },
        }
    }
}

impl DeepView for RawHit {
    type V = RawHitModel;

    open spec fn deep_view(&self) -> RawHitModel {
        self.view()
    }
}

/// A selection as it comes off the wire.
#[derive(Debug)]
pub struct RawSelection {
    pub url: String,
    pub trust_tier: Option<String>,
}

/// The mathematical shape of a raw selection.
pub struct RawSelModel {
    pub url: Seq<char>,
    pub trust_tier: Option<Seq<char>>,
}

impl View for RawSelection {
    type V = RawSelModel;

    open spec fn view(&self) -> RawSelModel {
        RawSelModel {
            url: self.url@,
            trust_tier: match self.trust_tier {
                Some(t) => Some(t@),
                None => None,
            },
        }
    }
}

impl DeepView for RawSelection {
    type V = RawSelModel;

    open spec fn deep_view(&self) -> RawSelModel {
        self.view()
    }
}

/// The tier taken from an oracle judgment: parse failures and absence fall
/// back to `Medium`.
pub open spec fn judged_tier(t: Option<Seq<char>>) -> TrustTier {
    match t {
        Some(s) => match tier_of_str_spec(s) {
            Ok(tier) => tier,
            Err(_) => TrustTier::Medium,
        },
        None => TrustTier::Medium,
    }
}

/// Whether `x` occurs in `v`.
pub open spec fn strs_contain(v: Seq<Seq<char>>, x: Seq<char>) -> bool {
    exists|j: int| 0 <= j < v.len() && v[j] == x
}

/// Whether the string `s` occurs in `v`.
pub fn norms_contain(v: &Vec<String>, s: &str) -> (r: bool)
    ensures
        r == strs_contain(v.deep_view(), s@),
{
    let n: usize = v.len();
    let mut i: usize = 0;
    while i < n
        invariant
            n == v@.len(),
            i <= n,
            forall|j: int| 0 <= j < i ==> v.deep_view()[j] != s@,
        decreases n - i,
    {
        if str_eq(v[i].as_str(), s) {
            proof {
                assert(v.deep_view()[i as int] == s@);
            }
            return true;
        }
        i = i + 1;
    }
    false
}

/// What filtering raw search hits yields, one raw entry at a time: entries
/// whose url parses to an `http`/`https` URL and is new after normalization
/// are kept in order, each with the oracle's tier judgment (default
/// `Medium`); one more entry is taken once the kept count reaches `limit`
/// minus one, and nothing after that.
pub open spec fn hits_rec(raw: Seq<RawHitModel>, seen: Seq<Seq<char>>, limit: int, have: int) -> Seq<
    HitModel,
>
    decreases raw.len(),
{
    if raw.len() == 0 {
        Seq::empty()
    } else {
        let r = raw[0];
        match url_parse_of(r.url) {
            Some(u) => if crate::urls::is_http_scheme(u.scheme) && !strs_contain(
                seen,
                u.normalized,
            ) {
                let hit = HitModel { url: u, title: r.title, trust_tier: judged_tier(r.trust_tier) };
                if have + 1 >= limit {
                    seq![hit]
                } else {
                    seq![hit] + hits_rec(raw.skip(1), seen.push(u.normalized), limit, have + 1)
                }
            } else {
                hits_rec(raw.skip(1), seen, limit, have)
            },
            None => hits_rec(raw.skip(1), seen, limit, have),
        }
    }
}

/// The hits a seed search contributes, given the raw oracle results and the
/// request's search limit.
pub open spec fn hits_spec(raw: Seq<RawHitModel>, limit: int) -> Seq<HitModel> {
    hits_rec(raw, Seq::empty(), limit, 0)
}

/// Filters raw search results into admissible, deduplicated seed hits, at
/// most `limit` of them (one is kept even at a zero limit, as the cap is
/// tested after each take).
pub fn filter_search_hits(raw: &Vec<RawHit>, limit: usize) -> (r: Vec<SearchHit>)
    ensures
        r.deep_view() == hits_spec(raw.deep_view(), limit as int),
{
    let n: usize = raw.len();
    let mut out: Vec<SearchHit> = Vec::new();
    let mut seen: Vec<String> = Vec::new();
    let mut i: usize = 0;
    proof {
        assert(raw.deep_view().skip(0) =~= raw.deep_view());
        assert(seen.deep_view() =~= Seq::<Seq<char>>::empty());
        assert(out.deep_view() + hits_rec(raw.deep_view(), seen.deep_view(), limit as int, 0)
            =~= hits_rec(raw.deep_view(), seen.deep_view(), limit as int, 0));
    }
    loop
        invariant_except_break
            i <= n,
            n == raw.deep_view().len(),
            hits_spec(raw.deep_view(), limit as int) == out.deep_view() + hits_rec(
                raw.deep_view().skip(i as int),
                seen.deep_view(),
                limit as int,
                out.deep_view().len() as int,
            ),
        ensures
            out.deep_view() == hits_spec(raw.deep_view(), limit as int),
        decreases n - i,
    {
        if i >= n {
            proof {
                assert(raw.deep_view().skip(i as int) =~= Seq::<RawHitModel>::empty());
            }
            break ;
        }
        let ghost rs = raw.deep_view().skip(i as int);
        let ghost out_old = out.deep_view();
        let ghost seen_old = seen.deep_view();
        proof {
            assert(rs[0] == raw.deep_view()[i as int]);
            assert(rs.skip(1) =~= raw.deep_view().skip(i + 1));
        }
        let item = &raw[i];
        match parse_url(item.url.as_str()) {
            Some(u) => {
                if crate::urls::has_http_scheme(&u) && !norms_contain(&seen, u.normalized.as_str())
                    {
                    let ghost u_m = u@;
                    let ghost hit_m = HitModel {
                        url: u_m,
                        title: rs[0].title,
                        trust_tier: judged_tier(rs[0].trust_tier),
                    };
                    let norm = u.normalized.clone();
                    let tier = match &item.trust_tier {
                        Some(t) => match TrustTier::from_str(t.as_str()) {
                            Ok(tier) => tier,
                            Err(_) => TrustTier::Medium,
                        },
                        None => TrustTier::Medium,
                    };
                    let title = match &item.title {
                        Some(t) => Some(t.clone()),
                        None => None,
                    };
                    out.push(SearchHit { url: u, title, trust_tier: tier });
                    proof {
                        assert(out.deep_view() =~= out_old.push(hit_m));
                        assert(out_old + seq![hit_m] =~= out_old.push(hit_m));
                    }
                    if out.len() >= limit {
                        proof {
                            assert(hits_rec(rs, seen_old, limit as int, out_old.len() as int)
                                == seq![hit_m]);
                        }
                        break ;
                    }
                    seen.push(norm);
                    proof {
                        assert(seen.deep_view() =~= seen_old.push(u_m.normalized));
                        assert(hits_rec(rs, seen_old, limit as int, out_old.len() as int)
                            == seq![hit_m] + hits_rec(
                            rs.skip(1),
                            seen_old.push(u_m.normalized),
                            limit as int,
                            out_old.len() as int + 1,
                        ));
                        assert(out_old + (seq![hit_m] + hits_rec(
                            raw.deep_view().skip(i + 1),
                            seen.deep_view(),
                            limit as int,
                            out.deep_view().len() as int,
                        )) =~= out.deep_view() + hits_rec(
                            raw.deep_view().skip(i + 1),
                            seen.deep_view(),
                            limit as int,
                            out.deep_view().len() as int,
                        ));
                    }
                }
            },
            None => {},
        }
        i = i + 1;
    }
    out
}

/// What filtering the oracle's selections yields, one raw entry at a time:
/// entries whose url parses to an `http`/`https` URL, stands in the offered
/// candidate set (when one was offered), and is new after normalization are
/// kept in order, each with the oracle's tier judgment (default `Medium`);
/// one more entry is taken once the kept count reaches `max_select` minus
/// one, and nothing after that.
pub open spec fn sel_rec(
    raw: Seq<RawSelModel>,
    cand_norms: Seq<Seq<char>>,
    seen: Seq<Seq<char>>,
    max_select: int,
    have: int,
) -> Seq<SelModel>
    decreases raw.len(),
{
    if raw.len() == 0 {
        Seq::empty()
    } else {
        let r = raw[0];
        match url_parse_of(r.url) {
            Some(u) => if crate::urls::is_http_scheme(u.scheme) && (cand_norms.len() == 0
                || strs_contain(cand_norms, u.normalized)) && !strs_contain(seen, u.normalized) {
                let s = SelModel { url: u, trust_tier: judged_tier(r.trust_tier) };
                if have + 1 >= max_select {
                    seq![s]
                } else {
                    seq![s] + sel_rec(
                        raw.skip(1),
                        cand_norms,
                        seen.push(u.normalized),
                        max_select,
                        have + 1,
                    )
                }
            } else {
                sel_rec(raw.skip(1), cand_norms, seen, max_select, have)
            },
            None => sel_rec(raw.skip(1), cand_norms, seen, max_select, have),
        }
    }
}

/// The links a delegated selection contributes, given the raw oracle answer,
/// the normalized URLs that were offered, and the per-page child budget.
pub open spec fn selections_spec(
    raw: Seq<RawSelModel>,
    cand_norms: Seq<Seq<char>>,
    max_select: int,
) -> Seq<SelModel> {
    sel_rec(raw, cand_norms, Seq::empty(), max_select, 0)
}

/// Filters the oracle's raw answer into admissible, deduplicated links drawn
/// from the offered candidate set, at most `max_select` of them (one is kept
/// even at a zero budget, as the cap is tested after each take); answers
/// outside the offered set are dropped as an oracle contract violation.
pub fn filter_selected(
    raw: &Vec<RawSelection>,
    cand_norms: &Vec<String>,
    max_select: usize,
) -> (r: Vec<SelectedLink>)
    ensures
        r.deep_view() == selections_spec(raw.deep_view(), cand_norms.deep_view(), max_select as int),
{
    let n: usize = raw.len();
    let mut out: Vec<SelectedLink> = Vec::new();
    let mut seen: Vec<String> = Vec::new();
    let mut i: usize = 0;
    proof {
        assert(raw.deep_view().skip(0) =~= raw.deep_view());
        assert(seen.deep_view() =~= Seq::<Seq<char>>::empty());
        assert(out.deep_view() + sel_rec(
            raw.deep_view(),
            cand_norms.deep_view(),
            seen.deep_view(),
            max_select as int,
            0,
        ) =~= sel_rec(
            raw.deep_view(),
            cand_norms.deep_view(),
            seen.deep_view(),
            max_select as int,
            0,
        ));
    }
    loop
        invariant_except_break
            i <= n,
            n == raw.deep_view().len(),
            selections_spec(raw.deep_view(), cand_norms.deep_view(), max_select as int)
                == out.deep_view() + sel_rec(
                raw.deep_view().skip(i as int),
                cand_norms.deep_view(),
                seen.deep_view(),
                max_select as int,
                out.deep_view().len() as int,
            ),
        ensures
            out.deep_view() == selections_spec(
                raw.deep_view(),
                cand_norms.deep_view(),
                max_select as int,
            ),
        decreases n - i,
    {
        if i >= n {
            proof {
                assert(raw.deep_view().skip(i as int) =~= Seq::<RawSelModel>::empty());
            }
            break ;
        }
        let ghost rs = raw.deep_view().skip(i as int);
        let ghost out_old = out.deep_view();
        let ghost seen_old = seen.deep_view();
        proof {
            assert(rs[0] == raw.deep_view()[i as int]);
            assert(rs.skip(1) =~= raw.deep_view().skip(i + 1));
        }
        let item = &raw[i];
        match parse_url(item.url.as_str()) {
            Some(u) => {
                let in_cands = cand_norms.len() == 0 || norms_contain(
                    cand_norms,
                    u.normalized.as_str(),
                );
                if crate::urls::has_http_scheme(&u) && in_cands && !norms_contain(
                    &seen,
                    u.normalized.as_str(),
                ) {
                    let ghost u_m = u@;
                    let ghost sel_m = SelModel { url: u_m, trust_tier: judged_tier(rs[0].trust_tier) };
                    let norm = u.normalized.clone();
                    let tier = match &item.trust_tier {
                        Some(t) => match TrustTier::from_str(t.as_str()) {
                            Ok(tier) => tier,
                            Err(_) => TrustTier::Medium,
                        },
                        None => TrustTier::Medium,
                    };
                    out.push(SelectedLink { url: u, trust_tier: tier });
                    proof {
                        assert(out.deep_view() =~= out_old.push(sel_m));
                        assert(out_old + seq![sel_m] =~= out_old.push(sel_m));
                    }
                    if out.len() >= max_select {
                        proof {
                            assert(sel_rec(
                                rs,
                                cand_norms.deep_view(),
                                seen_old,
                                max_select as int,
                                out_old.len() as int,
                            ) == seq![sel_m]);
                        }
                        break ;
                    }
                    seen.push(norm);
                    proof {
                        assert(seen.deep_view() =~= seen_old.push(u_m.normalized));
                        assert(sel_rec(
                            rs,
                            cand_norms.deep_view(),
                            seen_old,
                            max_select as int,
                            out_old.len() as int,
                        ) == seq![sel_m] + sel_rec(
                            rs.skip(1),
                            cand_norms.deep_view(),
                            seen_old.push(u_m.normalized),
                            max_select as int,
                            out_old.len() as int + 1,
                        ));
                        assert(out_old + (seq![sel_m] + sel_rec(
                            raw.deep_view().skip(i + 1),
                            cand_norms.deep_view(),
                            seen.deep_view(),
                            max_select as int,
                            out.deep_view().len() as int,
                        )) =~= out.deep_view() + sel_rec(
                            raw.deep_view().skip(i + 1),
                            cand_norms.deep_view(),
                            seen.deep_view(),
                            max_select as int,
                            out.deep_view().len() as int,
                        ));
                    }
                }
            },
            None => {},
        }
        i = i + 1;
    }
    out
}

} // verus!
