//! The crawl engine: the prioritized frontier, the per-host politeness
//! controller, and the orchestrating state machine that enforces the visit
//! and budget invariants.
//!
//! Fetching pages and consulting the oracle are outside work: the machine
//! hands its caller an `Action` saying what to fetch (and how long to wait
//! first), takes the outcome back as plain values, and says when a delegated
//! child-link selection is needed. Every decision between those boundaries is
//! verified.

use vstd::prelude::*;
use vstd::pervasive::VecAdditionalExecFns;

use crate::extract::{
    amap_lookup, extract_excerpt_and_anchor_map, extract_spec, AnchorMap,
};
use crate::openai::{
    filter_selected, selections_spec, strs_contain, RawSelection, SearchHit, SelModel,
};
use crate::text::{lex_lt, str_lt};
use crate::trust::{classify_spec, classify_trust_tier, tier_rank, TrustTier};
use crate::urls::{allowed_spec, is_allowed, ParsedUrl, UrlModel};

verus! {

/// The politeness floor: no host is contacted more often than this many
/// milliseconds apart, whatever the crawl-delay signals say.
pub const BASE_MIN_INTERVAL_MS: u64 = 150;

/// The immutable crawl request: the query and every budget.
#[derive(Debug)]
pub struct UserRequest {
    pub query: String,
    /// Character budget of the rendered report.
    pub max_chars: usize,
    /// Fewer sources than this adds an advisory note to the report.
    pub min_sources: usize,
    /// How many seed URLs the oracle search is asked for.
    pub search_limit: usize,
    /// How many pages may become sources.
    pub max_pages: usize,
    /// Depth ceiling; pages at the ceiling are fetched but never expanded.
    pub max_depth: usize,
    /// Wall-clock budget of the whole crawl, in milliseconds.
    pub max_elapsed_ms: u64,
    /// How many outbound links per page are considered at all.
    pub max_child_candidates: usize,
    /// How many children per page may enter the frontier.
    pub max_children_per_page: usize,
    /// Whether loopback and private-network hosts are admissible.
    pub allow_local: bool,
}

/// The mathematical shape of a request.
pub struct ReqModel {
    pub query: Seq<char>,
    pub max_chars: int,
    pub min_sources: int,
    pub search_limit: int,
    pub max_pages: int,
    pub max_depth: int,
    pub max_elapsed_ms: int,
    pub max_child_candidates: int,
    pub max_children_per_page: int,
    pub allow_local: bool,
}

impl View for UserRequest {
    type V = ReqModel;

    open spec fn view(&self) -> ReqModel {
        ReqModel {
            query: self.query@,
            max_chars: self.max_chars as int,
            min_sources: self.min_sources as int,
            search_limit: self.search_limit as int,
            max_pages: self.max_pages as int,
            max_depth: self.max_depth as int,
            max_elapsed_ms: self.max_elapsed_ms as int,
            max_child_candidates: self.max_child_candidates as int,
            max_children_per_page: self.max_children_per_page as int,
            allow_local: self.allow_local,
        }
    }
}

impl Clone for UserRequest {
    fn clone(&self) -> (r: Self)
        ensures
            r@ == self@,
    {
        UserRequest {
            query: self.query.clone(),
            max_chars: self.max_chars,
            min_sources: self.min_sources,
            search_limit: self.search_limit,
            max_pages: self.max_pages,
            max_depth: self.max_depth,
            max_elapsed_ms: self.max_elapsed_ms,
            max_child_candidates: self.max_child_candidates,
            max_children_per_page: self.max_children_per_page,
            allow_local: self.allow_local,
        }
    }
}

/// One crawled page: its URL, trust tier, and bounded excerpt. Appended
/// exactly once per successfully fetched and extracted page, in discovery
/// order.
#[derive(Debug)]
pub struct Source {
    pub url: ParsedUrl,
    pub trust_tier: TrustTier,
    pub excerpt: String,
}

/// The mathematical shape of a source.
pub struct SourceModel {
    pub url: UrlModel,
    pub trust_tier: TrustTier,
    pub excerpt: Seq<char>,
}

impl View for Source {
    type V = SourceModel;

    open spec fn view(&self) -> SourceModel {
        SourceModel { url: self.url@, trust_tier: self.trust_tier, excerpt: self.excerpt@ }
    }
}

impl DeepView for Source {
    type V = SourceModel;

    open spec fn deep_view(&self) -> SourceModel {
        self.view()
    }
}

impl Clone for Source {
    fn clone(&self) -> (r: Self)
        ensures
            r@ == self@,
    {
        Source {
            url: self.url.clone(),
            trust_tier: self.trust_tier,
            excerpt: self.excerpt.clone(),
        }
    }
}

/// The ordered sequence of sources a crawl produced.
#[derive(Debug)]
pub struct CrawlResult {
    pub sources: Vec<Source>,
}

impl View for CrawlResult {
    type V = Seq<SourceModel>;

    open spec fn view(&self) -> Seq<SourceModel> {
        self.sources.deep_view()
    }
}

/// One outbound link offered to child selection: URL, visible anchor text,
/// and trust tier.
#[derive(Debug)]
pub struct LinkCandidate {
    pub url: ParsedUrl,
    pub anchor_text: String,
    pub trust_tier: TrustTier,
}

/// The mathematical shape of a candidate.
pub struct CandModel {
    pub url: UrlModel,
    pub anchor_text: Seq<char>,
    pub trust_tier: TrustTier,
}

impl View for LinkCandidate {
    type V = CandModel;

    open spec fn view(&self) -> CandModel {
        CandModel { url: self.url@, anchor_text: self.anchor_text@, trust_tier: self.trust_tier }
    }
}

impl DeepView for LinkCandidate {
    type V = CandModel;

    open spec fn deep_view(&self) -> CandModel {
        self.view()
    }
}

/// One queued (URL, depth) pair; the depth is fixed at enqueue time.
#[derive(Debug)]
pub struct FrontierEntry {
    pub url: ParsedUrl,
    pub depth: usize,
}

/// The mathematical shape of a frontier entry.
pub struct EntryModel {
    pub url: UrlModel,
    pub depth: int,
}

impl View for FrontierEntry {
    type V = EntryModel;

    open spec fn view(&self) -> EntryModel {
        EntryModel { url: self.url@, depth: self.depth as int }
    }
}

impl DeepView for FrontierEntry {
    type V = EntryModel;

    open spec fn deep_view(&self) -> EntryModel {
        self.view()
    }
}

/// The three tier queues of the frontier.
pub struct FrontierModel {
    pub high: Seq<EntryModel>,
    pub medium: Seq<EntryModel>,
    pub low: Seq<EntryModel>,
}

impl FrontierModel {
    /// The order entries leave the frontier: strict tier priority, FIFO
    /// within a tier.
    pub open spec fn queue(self) -> Seq<EntryModel> {
        self.high + self.medium + self.low
    }

    /// The frontier after an entry is enqueued at the back of its tier.
    pub open spec fn push_model(self, e: EntryModel, tier: TrustTier) -> FrontierModel {
        match tier {
            TrustTier::High => FrontierModel { high: self.high.push(e), ..self },
            TrustTier::Medium => FrontierModel { medium: self.medium.push(e), ..self },
            TrustTier::Low => FrontierModel { low: self.low.push(e), ..self },
        }
    }

    /// The frontier after the highest-priority entry leaves, with that entry.
    pub open spec fn pop_model(self) -> (FrontierModel, Option<EntryModel>) {
        if self.high.len() > 0 {
            (FrontierModel { high: self.high.skip(1), ..self }, Some(self.high[0]))
        } else if self.medium.len() > 0 {
            (FrontierModel { medium: self.medium.skip(1), ..self }, Some(self.medium[0]))
        } else if self.low.len() > 0 {
            (FrontierModel { low: self.low.skip(1), ..self }, Some(self.low[0]))
        } else {
            (self, None)
        }
    }
}

/// Three-level priority queue of (URL, depth) pairs: strict tier priority,
/// FIFO within a tier.
pub struct Frontier {
    pub high: Vec<FrontierEntry>,
    pub medium: Vec<FrontierEntry>,
    pub low: Vec<FrontierEntry>,
}

impl View for Frontier {
    type V = FrontierModel;

    open spec fn view(&self) -> FrontierModel {
        FrontierModel {
            high: self.high.deep_view(),
            medium: self.medium.deep_view(),
            low: self.low.deep_view(),
        }
    }
}

impl Frontier {
    pub fn new() -> (r: Frontier)
        ensures
            r@.queue() == Seq::<EntryModel>::empty(),
            r@ == (FrontierModel {
                high: Seq::<EntryModel>::empty(),
                medium: Seq::<EntryModel>::empty(),
                low: Seq::<EntryModel>::empty(),
            }),
    {
        let r = Frontier { high: Vec::new(), medium: Vec::new(), low: Vec::new() };
        proof {
            assert(r.high.deep_view() =~= Seq::<EntryModel>::empty());
            assert(r.medium.deep_view() =~= Seq::<EntryModel>::empty());
            assert(r.low.deep_view() =~= Seq::<EntryModel>::empty());
            assert(r@.queue() =~= Seq::<EntryModel>::empty());
        }
        r
    }

    /// Enqueues at the back of the tier's queue.
    pub fn push(&mut self, url: ParsedUrl, depth: usize, tier: TrustTier)
        ensures
            final(self)@ == old(self)@.push_model(
                EntryModel { url: url@, depth: depth as int },
                tier,
            ),
    {
        let e = FrontierEntry { url, depth };
        let ghost e_m = e@;
        match tier {
            TrustTier::High => {
                self.high.push(e);
                proof {
                    assert(self.high.deep_view() =~= old(self).high.deep_view().push(e_m));
                }
            },
            TrustTier::Medium => {
                self.medium.push(e);
                proof {
                    assert(self.medium.deep_view() =~= old(self).medium.deep_view().push(e_m));
                }
            },
            TrustTier::Low => {
                self.low.push(e);
                proof {
                    assert(self.low.deep_view() =~= old(self).low.deep_view().push(e_m));
                }
            },
        }
    }

    /// Dequeues the highest-priority entry, oldest first within a tier.
    pub fn pop(&mut self) -> (r: Option<FrontierEntry>)
        ensures
            final(self)@ == old(self)@.pop_model().0,
            match r {
                Some(e) => old(self)@.pop_model().1 == Some(e@),
                None => old(self)@.pop_model().1 is None && *final(self) == *old(self),
            },
    {
        if self.high.len() > 0 {
            let e = self.high.remove(0);
            proof {
                assert(self.high.deep_view() =~= old(self).high.deep_view().skip(1));
                assert(e@ == old(self).high.deep_view()[0]);
            }
            Some(e)
        } else if self.medium.len() > 0 {
            let e = self.medium.remove(0);
            proof {
                assert(self.medium.deep_view() =~= old(self).medium.deep_view().skip(1));
                assert(e@ == old(self).medium.deep_view()[0]);
            }
            Some(e)
        } else if self.low.len() > 0 {
            let e = self.low.remove(0);
            proof {
                assert(self.low.deep_view() =~= old(self).low.deep_view().skip(1));
                assert(e@ == old(self).low.deep_view()[0]);
            }
            Some(e)
        } else {
            proof {
                assert(old(self).high.deep_view().len() == 0);
                assert(old(self).medium.deep_view().len() == 0);
                assert(old(self).low.deep_view().len() == 0);
            }
            None
        }
    }
}

/// Per-host politeness state: when the host was last contacted and the
/// current minimum interval between contacts.
#[derive(Debug)]
pub struct HostState {
    pub host: String,
    pub last_ms: u64,
    pub min_ms: u64,
}

/// The mathematical shape of one host's state.
pub struct HostModel {
    pub host: Seq<char>,
    pub last: int,
    pub min: int,
}

impl View for HostState {
    type V = HostModel;

    open spec fn view(&self) -> HostModel {
        HostModel { host: self.host@, last: self.last_ms as int, min: self.min_ms as int }
    }
}

impl DeepView for HostState {
    type V = HostModel;

    open spec fn deep_view(&self) -> HostModel {
        self.view()
    }
}

/// The first entry recorded for `h`, if any.
pub open spec fn lookup_host(s: Seq<HostModel>, h: Seq<char>) -> Option<HostModel>
    decreases s.len(),
{
    if s.len() == 0 {
        None
    } else if s[0].host == h {
        Some(s[0])
    } else {
        lookup_host(s.skip(1), h)
    }
}

/// `x` clamped to the range of a 64-bit count.
pub open spec fn sat64(x: int) -> int {
    if x > u64::MAX as int {
        u64::MAX as int
    } else {
        x
    }
}

/// How long a request to `h` must still wait at time `now`: the remainder of
/// the host's minimum interval since its last request, zero for a host never
/// contacted.
pub open spec fn wait_spec(s: Seq<HostModel>, h: Seq<char>, now: int) -> int {
    match lookup_host(s, h) {
        None => 0,
        Some(e) => if e.last + e.min > now {
            sat64(e.last + e.min - now)
        } else {
            0
        },
    }
}

/// The table after the host's last-request time is set to `nl`; a host not
/// yet in the table is appended with the base interval.
pub open spec fn set_last(s: Seq<HostModel>, h: Seq<char>, nl: int) -> Seq<HostModel>
    decreases s.len(),
{
    if s.len() == 0 {
        seq![HostModel { host: h, last: nl, min: BASE_MIN_INTERVAL_MS as int }]
    } else if s[0].host == h {
        seq![HostModel { host: s[0].host, last: nl, min: s[0].min }] + s.skip(1)
    } else {
        seq![s[0]] + set_last(s.skip(1), h, nl)
    }
}

/// The greater of two values.
pub open spec fn max2(a: int, b: int) -> int {
    if a >= b {
        a
    } else {
        b
    }
}

/// The table after a fetch attempt to `h` reported the delay hint `d`: the
/// host's interval is raised to at least the hint and the base floor, and
/// never lowered.
pub open spec fn bump_min(s: Seq<HostModel>, h: Seq<char>, d: int) -> Seq<HostModel>
    decreases s.len(),
{
    if s.len() == 0 {
        seq![HostModel { host: h, last: 0, min: max2(d, BASE_MIN_INTERVAL_MS as int) }]
    } else if s[0].host == h {
        seq![
            HostModel {
                host: s[0].host,
                last: s[0].last,
                min: max2(s[0].min, max2(d, BASE_MIN_INTERVAL_MS as int)),
            },
        ] + s.skip(1)
    } else {
        seq![s[0]] + bump_min(s.skip(1), h, d)
    }
}

/// The politeness controller: one state per host contacted so far.
pub struct Politeness {
    pub entries: Vec<HostState>,
}

impl View for Politeness {
    type V = Seq<HostModel>;

    open spec fn view(&self) -> Seq<HostModel> {
        self.entries.deep_view()
    }
}

impl Politeness {
    pub fn new() -> (r: Politeness)
        ensures
            r@ == Seq::<HostModel>::empty(),
    {
        let r = Politeness { entries: Vec::new() };
        proof {
            assert(r@ =~= Seq::<HostModel>::empty());
        }
        r
    }

    /// Accounts for a request to `host` at time `now_ms`: hands back how long
    /// the caller must wait first, and records the post-wait instant as the
    /// host's last-request time. A request is never scheduled sooner than the
    /// host's minimum interval after the previous one.
    pub fn prepare_request(&mut self, host: &str, now_ms: u64) -> (wait: u64)
        ensures
            wait as int == wait_spec(old(self)@, host@, now_ms as int),
            final(self)@ == set_last(old(self)@, host@, sat64(now_ms as int + wait as int)),
            match lookup_host(old(self)@, host@) {
                Some(e) => now_ms as int + wait as int >= e.last + e.min || now_ms as int
                    + wait as int >= u64::MAX as int,
                None => wait == 0,
            },
    {
        let n: usize = self.entries.len();
        let mut i: usize = 0;
        while i < n
            invariant
                n == self.entries@.len(),
                i <= n,
                self@ == old(self)@,
                forall|j: int| 0 <= j < i ==> self@[j].host != host@,
            decreases n - i,
        {
            if crate::text::str_eq(self.entries[i].host.as_str(), host) {
                let e_last = self.entries[i].last_ms;
                let e_min = self.entries[i].min_ms;
                proof {
                    assert(self@[i as int].host == host@);
                    lemma_lookup_host_at(self@, host@, i as int);
                }
                let due: u128 = e_last as u128 + e_min as u128;
                let wait: u64 = if due > now_ms as u128 {
                    let w = due - now_ms as u128;
                    if w > u64::MAX as u128 {
                        u64::MAX
                    } else {
                        w as u64
                    }
                } else {
                    0
                };
                let nl: u128 = now_ms as u128 + wait as u128;
                let nl64: u64 = if nl > u64::MAX as u128 {
                    u64::MAX
                } else {
                    nl as u64
                };
                let updated = HostState {
                    host: self.entries[i].host.clone(),
                    last_ms: nl64,
                    min_ms: e_min,
                };
                let ghost updated_m = updated@;
                self.entries.set(i, updated);
                proof {
                    assert(self@ =~= old(self)@.update(i as int, updated_m));
                    lemma_set_last_at(old(self)@, host@, nl64 as int, i as int);
                }
                return wait;
            }
            i = i + 1;
        }
        proof {
            lemma_lookup_host_absent(self@, host@);
        }
        let fresh = HostState {
            host: host.to_owned(),
            last_ms: now_ms,
            min_ms: BASE_MIN_INTERVAL_MS,
        };
        let ghost fresh_m = fresh@;
        self.entries.push(fresh);
        proof {
            assert(self@ =~= old(self)@.push(fresh_m));
            lemma_set_last_absent(old(self)@, host@, now_ms as int);
        }
        0
    }

    /// Accounts for the outcome of a fetch attempt to `host`: raises the
    /// host's minimum interval to at least the reported delay hint and the
    /// base floor.
    pub fn record_delay(&mut self, host: &str, delay_ms: u64)
        ensures
            final(self)@ == bump_min(old(self)@, host@, delay_ms as int),
    {
        let n: usize = self.entries.len();
        let mut i: usize = 0;
        while i < n
            invariant
                n == self.entries@.len(),
                i <= n,
                self@ == old(self)@,
                forall|j: int| 0 <= j < i ==> self@[j].host != host@,
            decreases n - i,
        {
            if crate::text::str_eq(self.entries[i].host.as_str(), host) {
                let e_min = self.entries[i].min_ms;
                let m1 = if e_min >= delay_ms {
                    e_min
                } else {
                    delay_ms
                };
                let m2 = if m1 >= BASE_MIN_INTERVAL_MS {
                    m1
                } else {
                    BASE_MIN_INTERVAL_MS
                };
                let updated = HostState {
                    host: self.entries[i].host.clone(),
                    last_ms: self.entries[i].last_ms,
                    min_ms: m2,
                };
                let ghost updated_m = updated@;
                self.entries.set(i, updated);
                proof {
                    assert(self@ =~= old(self)@.update(i as int, updated_m));
                    lemma_bump_min_at(old(self)@, host@, delay_ms as int, i as int);
                }
                return ;
            }
            i = i + 1;
        }
        let m = if delay_ms >= BASE_MIN_INTERVAL_MS {
            delay_ms
        } else {
            BASE_MIN_INTERVAL_MS
        };
        let fresh = HostState { host: host.to_owned(), last_ms: 0, min_ms: m };
        let ghost fresh_m = fresh@;
        self.entries.push(fresh);
        proof {
            assert(self@ =~= old(self)@.push(fresh_m));
            lemma_bump_min_absent(old(self)@, host@, delay_ms as int);
        }
    }
}

proof fn lemma_lookup_host_at(s: Seq<HostModel>, h: Seq<char>, j: int)
    requires
        0 <= j < s.len(),
        s[j].host == h,
        forall|k: int| 0 <= k < j ==> s[k].host != h,
    ensures
        lookup_host(s, h) == Some(s[j]),
    decreases j,
{
    if j == 0 {
    } else {
        lemma_lookup_host_at(s.skip(1), h, j - 1);
    }
}

proof fn lemma_lookup_host_absent(s: Seq<HostModel>, h: Seq<char>)
    requires
        forall|k: int| 0 <= k < s.len() ==> s[k].host != h,
    ensures
        lookup_host(s, h) is None,
    decreases s.len(),
{
    if s.len() > 0 {
        lemma_lookup_host_absent(s.skip(1), h);
    }
}

proof fn lemma_set_last_at(s: Seq<HostModel>, h: Seq<char>, nl: int, j: int)
    requires
        0 <= j < s.len(),
        s[j].host == h,
        forall|k: int| 0 <= k < j ==> s[k].host != h,
    ensures
        set_last(s, h, nl) == s.update(
            j,
            HostModel { host: s[j].host, last: nl, min: s[j].min },
        ),
    decreases j,
{
    if j == 0 {
        assert(seq![HostModel { host: s[0].host, last: nl, min: s[0].min }] + s.skip(1)
            =~= s.update(0, HostModel { host: s[0].host, last: nl, min: s[0].min }));
    } else {
        lemma_set_last_at(s.skip(1), h, nl, j - 1);
        assert(seq![s[0]] + s.skip(1).update(
            j - 1,
            HostModel { host: s[j].host, last: nl, min: s[j].min },
        ) =~= s.update(j, HostModel { host: s[j].host, last: nl, min: s[j].min }));
    }
}

proof fn lemma_set_last_absent(s: Seq<HostModel>, h: Seq<char>, nl: int)
    requires
        forall|k: int| 0 <= k < s.len() ==> s[k].host != h,
    ensures
        set_last(s, h, nl) == s.push(
            HostModel { host: h, last: nl, min: BASE_MIN_INTERVAL_MS as int },
        ),
    decreases s.len(),
{
    if s.len() == 0 {
        assert(seq![HostModel { host: h, last: nl, min: BASE_MIN_INTERVAL_MS as int }] =~= s.push(
            HostModel { host: h, last: nl, min: BASE_MIN_INTERVAL_MS as int },
        ));
    } else {
        lemma_set_last_absent(s.skip(1), h, nl);
        assert(seq![s[0]] + s.skip(1).push(
            HostModel { host: h, last: nl, min: BASE_MIN_INTERVAL_MS as int },
        ) =~= s.push(HostModel { host: h, last: nl, min: BASE_MIN_INTERVAL_MS as int }));
    }
}

proof fn lemma_bump_min_at(s: Seq<HostModel>, h: Seq<char>, d: int, j: int)
    requires
        0 <= j < s.len(),
        s[j].host == h,
        forall|k: int| 0 <= k < j ==> s[k].host != h,
    ensures
        bump_min(s, h, d) == s.update(
            j,
            HostModel {
                host: s[j].host,
                last: s[j].last,
                min: max2(s[j].min, max2(d, BASE_MIN_INTERVAL_MS as int)),
            },
        ),
    decreases j,
{
    let upd = HostModel {
        host: s[j].host,
        last: s[j].last,
        min: max2(s[j].min, max2(d, BASE_MIN_INTERVAL_MS as int)),
    };
    if j == 0 {
        assert(seq![upd] + s.skip(1) =~= s.update(0, upd));
    } else {
        lemma_bump_min_at(s.skip(1), h, d, j - 1);
        assert(seq![s[0]] + s.skip(1).update(j - 1, upd) =~= s.update(j, upd));
    }
}

proof fn lemma_bump_min_absent(s: Seq<HostModel>, h: Seq<char>, d: int)
    requires
        forall|k: int| 0 <= k < s.len() ==> s[k].host != h,
    ensures
        bump_min(s, h, d) == s.push(
            HostModel { host: h, last: 0, min: max2(d, BASE_MIN_INTERVAL_MS as int) },
        ),
    decreases s.len(),
{
    let fresh = HostModel { host: h, last: 0, min: max2(d, BASE_MIN_INTERVAL_MS as int) };
    if s.len() == 0 {
        assert(seq![fresh] =~= s.push(fresh));
    } else {
        lemma_bump_min_absent(s.skip(1), h, d);
        assert(seq![s[0]] + s.skip(1).push(fresh) =~= s.push(fresh));
    }
}

/// The normalized URLs of a source list, in order.
pub open spec fn source_norms(s: Seq<SourceModel>) -> Seq<Seq<char>> {
    s.map_values(|x: SourceModel| x.url.normalized)
}

/// Whether the sequences in `v` are pairwise distinct.
pub open spec fn distinct_seqs(v: Seq<Seq<char>>) -> bool {
    forall|i: int, j: int| 0 <= i < j < v.len() ==> v[i] != v[j]
}

proof fn lemma_strs_contain_push(v: Seq<Seq<char>>, x: Seq<char>, y: Seq<char>)
    ensures
        strs_contain(v, y) ==> strs_contain(v.push(x), y),
        strs_contain(v.push(x), y) ==> (y == x || strs_contain(v, y)),
{
    if strs_contain(v, y) {
        let j = choose|j: int| 0 <= j < v.len() && v[j] == y;
        assert(v.push(x)[j] == y);
    }
    if strs_contain(v.push(x), y) {
        let j = choose|j: int| 0 <= j < v.push(x).len() && v.push(x)[j] == y;
        if j < v.len() {
            assert(v[j] == y);
        }
    }
}

/// The tier queue that seeding fills for `tier`: the admissible hits whose
/// host classifies to that tier, in order, at depth zero.
pub open spec fn seed_queue(
    hits: Seq<crate::openai::HitModel>,
    allow: bool,
    tier: TrustTier,
) -> Seq<EntryModel>
    decreases hits.len(),
{
    if hits.len() == 0 {
        Seq::empty()
    } else {
        let rest = seed_queue(hits.skip(1), allow, tier);
        if allowed_spec(hits[0].url, allow) && classify_spec(hits[0].url) == tier {
            seq![EntryModel { url: hits[0].url, depth: 0 }] + rest
        } else {
            rest
        }
    }
}

/// The normalized URLs of the admissible seed hits.
pub open spec fn seed_set(hits: Seq<crate::openai::HitModel>, allow: bool) -> Set<Seq<char>>
    decreases hits.len(),
{
    if hits.len() == 0 {
        Set::empty()
    } else {
        let rest = seed_set(hits.skip(1), allow);
        if allowed_spec(hits[0].url, allow) {
            rest.insert(hits[0].url.normalized)
        } else {
            rest
        }
    }
}

/// A page popped from the frontier and awaiting its fetch outcome, or a page
/// whose child selection was delegated to the oracle.
pub enum Phase {
    Idle,
    Fetching(FrontierEntry),
    Selecting(PendingSelect),
}

/// The page whose children await the oracle's judgment: its depth and the
/// normalized URLs that were offered as candidates.
pub struct PendingSelect {
    pub depth: usize,
    pub cand_norms: Vec<String>,
}

/// What the crawl asks its driver to do next.
pub enum Action {
    /// Wait `wait_ms` milliseconds (host politeness), fetch `url`, and hand
    /// the outcome to `on_page`.
    Fetch { url: ParsedUrl, wait_ms: u64 },
    /// A frontier entry was discarded (already visited, or inadmissible);
    /// ask again.
    Skip,
    /// The crawl is over: a budget is exhausted or the frontier is empty.
    Done,
}

/// What a fetch attempt produced, as the page-fetch collaborator reports it:
/// a page with its outbound links and crawl-delay hint, or a uniform failure
/// (robots-disallowed, bad status, transport error, oversize body, timeout).
pub enum FetchOutcome {
    Unavailable,
    Page { html: String, links: Vec<String>, delay_hint_ms: u64 },
}

/// The crawl-orchestration state machine.
pub struct Crawler {
    pub request: UserRequest,
    pub started_ms: u64,
    pub frontier: Frontier,
    pub visited: Vec<String>,
    pub sources: Vec<Source>,
    pub politeness: Politeness,
    pub phase: Phase,
    /// The normalized URLs the crawl was seeded with.
    pub seeds: Ghost<Set<Seq<char>>>,
}

impl Crawler {
    /// The visited set, as normalized URLs in insertion order.
    pub open spec fn vis(&self) -> Seq<Seq<char>> {
        self.visited.deep_view()
    }

    /// The sources recorded so far, in discovery order.
    pub open spec fn srcs(&self) -> Seq<SourceModel> {
        self.sources.deep_view()
    }

    /// What every entry of the frontier satisfies: its depth is within the
    /// ceiling, its URL admissible, and — at a zero depth ceiling — a seed.
    pub open spec fn entry_ok(&self, e: EntryModel) -> bool {
        &&& 0 <= e.depth <= self.request@.max_depth
        &&& allowed_spec(e.url, self.request@.allow_local)
        &&& (self.request@.max_depth == 0 ==> self.seeds@.contains(e.url.normalized))
    }

    /// The invariants that hold at every point of the crawl loop.
    pub open spec fn wf(&self) -> bool {
        &&& self.srcs().len() <= self.request@.max_pages
        &&& distinct_seqs(self.vis())
        &&& distinct_seqs(source_norms(self.srcs()))
        &&& forall|i: int|
            0 <= i < self.srcs().len() ==> strs_contain(
                self.vis(),
                (#[trigger] self.srcs()[i]).url.normalized,
            )
        &&& forall|i: int|
            0 <= i < self.srcs().len() ==> allowed_spec(
                (#[trigger] self.srcs()[i]).url,
                self.request@.allow_local,
            )
        &&& (self.request@.max_depth == 0 ==> forall|i: int|
            0 <= i < self.srcs().len() ==> self.seeds@.contains(
                (#[trigger] self.srcs()[i]).url.normalized,
            ))
        &&& forall|i: int|
            0 <= i < self.frontier@.high.len() ==> self.entry_ok(#[trigger] self.frontier@.high[i])
        &&& forall|i: int|
            0 <= i < self.frontier@.medium.len() ==> self.entry_ok(
                #[trigger] self.frontier@.medium[i],
            )
        &&& forall|i: int|
            0 <= i < self.frontier@.low.len() ==> self.entry_ok(#[trigger] self.frontier@.low[i])
        &&& match self.phase {
            Phase::Idle => true,
            Phase::Fetching(p) => {
                &&& self.entry_ok(p@)
                &&& strs_contain(self.vis(), p.url@.normalized)
                &&& !strs_contain(source_norms(self.srcs()), p.url@.normalized)
                &&& self.srcs().len() < self.request@.max_pages
            },
            Phase::Selecting(ps) => (ps.depth as int) < self.request@.max_depth,
        }
    }

    pub open spec fn is_idle(&self) -> bool {
        self.phase is Idle
    }

    pub open spec fn is_fetching(&self) -> bool {
        self.phase is Fetching
    }

    pub open spec fn is_selecting(&self) -> bool {
        self.phase is Selecting
    }

    /// Seeds a crawl: each admissible hit enters the frontier at depth zero
    /// under its classified tier; inadmissible hits are dropped.
    pub fn new(request: UserRequest, hits: Vec<SearchHit>, now_ms: u64) -> (c: Crawler)
        ensures
            c.wf(),
            c.is_idle(),
            c.request == request,
            c.started_ms == now_ms,
            c.srcs() == Seq::<SourceModel>::empty(),
            c.vis() == Seq::<Seq<char>>::empty(),
            c.politeness@ == Seq::<HostModel>::empty(),
            c.frontier@.high == seed_queue(hits.deep_view(), request@.allow_local, TrustTier::High),
            c.frontier@.medium == seed_queue(
                hits.deep_view(),
                request@.allow_local,
                TrustTier::Medium,
            ),
            c.frontier@.low == seed_queue(hits.deep_view(), request@.allow_local, TrustTier::Low),
            c.seeds@ == seed_set(hits.deep_view(), request@.allow_local),
    {
        let allow = request.allow_local;
        let ghost hits_v = hits.deep_view();
        let mut frontier = Frontier::new();
        let n: usize = hits.len();
        let mut i: usize = 0;
        proof {
            assert(hits_v.skip(0) =~= hits_v);
            assert(frontier@.high + seed_queue(hits_v, allow, TrustTier::High) =~= seed_queue(
                hits_v,
                allow,
                TrustTier::High,
            ));
            assert(frontier@.medium + seed_queue(hits_v, allow, TrustTier::Medium) =~= seed_queue(
                hits_v,
                allow,
                TrustTier::Medium,
            ));
            assert(frontier@.low + seed_queue(hits_v, allow, TrustTier::Low) =~= seed_queue(
                hits_v,
                allow,
                TrustTier::Low,
            ));
        }
        while i < n
            invariant
                n == hits_v.len(),
                hits_v == hits.deep_view(),
                i <= n,
                frontier@.high + seed_queue(hits_v.skip(i as int), allow, TrustTier::High)
                    == seed_queue(hits_v, allow, TrustTier::High),
                frontier@.medium + seed_queue(hits_v.skip(i as int), allow, TrustTier::Medium)
                    == seed_queue(hits_v, allow, TrustTier::Medium),
                frontier@.low + seed_queue(hits_v.skip(i as int), allow, TrustTier::Low)
                    == seed_queue(hits_v, allow, TrustTier::Low),
                forall|k: int|
                    0 <= k < frontier@.high.len() ==> seed_entry_ok(
                        hits_v,
                        allow,
                        #[trigger] frontier@.high[k],
                    ),
                forall|k: int|
                    0 <= k < frontier@.medium.len() ==> seed_entry_ok(
                        hits_v,
                        allow,
                        #[trigger] frontier@.medium[k],
                    ),
                forall|k: int|
                    0 <= k < frontier@.low.len() ==> seed_entry_ok(
                        hits_v,
                        allow,
                        #[trigger] frontier@.low[k],
                    ),
            decreases n - i,
        {
            let ghost rest = hits_v.skip(i as int);
            proof {
                assert(rest[0] == hits_v[i as int]);
                assert(rest.skip(1) =~= hits_v.skip(i + 1));
            }
            let hit = &hits[i];
            if is_allowed(&hit.url, allow) {
                let tier = classify_trust_tier(&hit.url);
                let ghost f_old = frontier@;
                frontier.push(hit.url.clone(), 0, tier);
                proof {
                    lemma_seed_set_member(hits_v, allow, i as int);
                    match tier {
                        TrustTier::High => {
                            assert(f_old.high.push(EntryModel { url: hits_v[i as int].url, depth: 0 })
                                + seed_queue(rest.skip(1), allow, TrustTier::High) =~= f_old.high + (
                            seq![EntryModel { url: hits_v[i as int].url, depth: 0 }] + seed_queue(
                                rest.skip(1),
                                allow,
                                TrustTier::High,
                            )));
                        },
                        TrustTier::Medium => {
                            assert(f_old.medium.push(
                                EntryModel { url: hits_v[i as int].url, depth: 0 },
                            ) + seed_queue(rest.skip(1), allow, TrustTier::Medium) =~= f_old.medium
                                + (seq![EntryModel { url: hits_v[i as int].url, depth: 0 }]
                                + seed_queue(rest.skip(1), allow, TrustTier::Medium)));
                        },
                        TrustTier::Low => {
                            assert(f_old.low.push(EntryModel { url: hits_v[i as int].url, depth: 0 })
                                + seed_queue(rest.skip(1), allow, TrustTier::Low) =~= f_old.low + (
                            seq![EntryModel { url: hits_v[i as int].url, depth: 0 }] + seed_queue(
                                rest.skip(1),
                                allow,
                                TrustTier::Low,
                            )));
                        },
                    }
                }
            }
            i = i + 1;
        }
        proof {
            assert(hits_v.skip(n as int) =~= Seq::<crate::openai::HitModel>::empty());
            assert(frontier@.high + Seq::<EntryModel>::empty() =~= frontier@.high);
            assert(frontier@.medium + Seq::<EntryModel>::empty() =~= frontier@.medium);
            assert(frontier@.low + Seq::<EntryModel>::empty() =~= frontier@.low);
        }
        let c = Crawler {
            request,
            started_ms: now_ms,
            frontier,
            visited: Vec::new(),
            sources: Vec::new(),
            politeness: Politeness::new(),
            phase: Phase::Idle,
            seeds: Ghost(seed_set(hits_v, allow)),
        };
        proof {
            assert(c.vis() =~= Seq::<Seq<char>>::empty());
            assert(c.srcs() =~= Seq::<SourceModel>::empty());
            assert(source_norms(c.srcs()) =~= Seq::<Seq<char>>::empty());
        }
        c
    }
}

impl Crawler {
    /// Decides the next step of the loop, with the terminal conditions
    /// checked in order: the page budget, the wall clock, the frontier. A
    /// popped entry already visited, or inadmissible, is discarded (`Skip`);
    /// otherwise it is marked visited, the host politeness wait is computed
    /// and recorded, and the caller is told to fetch.
    pub fn next_action(&mut self, now_ms: u64) -> (a: Action)
        requires
            old(self).wf(),
            old(self).is_idle(),
        ensures
            final(self).wf(),
            final(self).request == old(self).request,
            final(self).started_ms == old(self).started_ms,
            final(self).seeds == old(self).seeds,
            final(self).srcs() == old(self).srcs(),
            (a is Done) <==> (old(self).srcs().len() >= old(self).request@.max_pages || (now_ms
                > old(self).started_ms && now_ms - old(self).started_ms
                > old(self).request@.max_elapsed_ms) || old(self).frontier@.queue().len() == 0),
            a is Done ==> *final(self) == *old(self),
            // no host is fetched sooner than its minimum interval after the
            // previous request to it (up to the 64-bit clock ceiling)
            a matches Action::Fetch { url, wait_ms } ==> (url@.host_text.len() > 0 ==> match
                lookup_host(old(self).politeness@, url@.host_text) {
                Some(e) => now_ms as int + wait_ms as int >= e.last + e.min || now_ms as int
                    + wait_ms as int >= u64::MAX as int,
                None => wait_ms == 0,
            }),
            !(a is Done) ==> {
                &&& final(self).frontier@ == old(self).frontier@.pop_model().0
                &&& old(self).frontier@.pop_model().1 matches Some(e) && {
                    if strs_contain(old(self).vis(), e.url.normalized) {
                        &&& a is Skip
                        &&& final(self).vis() == old(self).vis()
                        &&& final(self).politeness@ == old(self).politeness@
                        &&& final(self).is_idle()
                    } else if !allowed_spec(e.url, old(self).request@.allow_local) {
                        &&& a is Skip
                        &&& final(self).vis() == old(self).vis().push(e.url.normalized)
                        &&& final(self).politeness@ == old(self).politeness@
                        &&& final(self).is_idle()
                    } else {
                        &&& final(self).vis() == old(self).vis().push(e.url.normalized)
                        &&& (a matches Action::Fetch { url, wait_ms } && url@ == e.url && {
                            if e.url.host_text.len() > 0 {
                                &&& wait_ms as int == wait_spec(
                                    old(self).politeness@,
                                    e.url.host_text,
                                    now_ms as int,
                                )
                                &&& final(self).politeness@ == set_last(
                                    old(self).politeness@,
                                    e.url.host_text,
                                    sat64(now_ms as int + wait_ms as int),
                                )
                            } else {
                                wait_ms == 0 && final(self).politeness@ == old(self).politeness@
                            }
                        })
                        &&& (final(self).phase matches Phase::Fetching(p) && p@ == e)
                    }
                }
            },
    {
        if self.sources.len() >= self.request.max_pages {
            return Action::Done;
        }
        if now_ms > self.started_ms && now_ms - self.started_ms > self.request.max_elapsed_ms {
            return Action::Done;
        }
        let popped = self.frontier.pop();
        let e = match popped {
            Some(e) => e,
            None => {
                proof {
                    assert(old(self).frontier@.queue().len() == 0);
                }
                return Action::Done;
            },
        };
        proof {
            assert(old(self).frontier@.queue().len() > 0);
            assert(old(self).entry_ok(e@));
        }
        if crate::openai::norms_contain(&self.visited, e.url.normalized.as_str()) {
            return Action::Skip;
        }
        let ghost vis_old = self.vis();
        self.visited.push(e.url.normalized.clone());
        proof {
            assert(self.vis() =~= vis_old.push(e.url@.normalized));
            assert forall|y: Seq<char>|
                strs_contain(vis_old, y) implies strs_contain(self.vis(), y) by {
                lemma_strs_contain_push(vis_old, e.url@.normalized, y);
            }
            assert(self.vis()[vis_old.len() as int] == e.url@.normalized);
            assert(strs_contain(self.vis(), e.url@.normalized));
            assert forall|i: int, j: int|
                0 <= i < j < self.vis().len() implies self.vis()[i] != self.vis()[j] by {
                if j == vis_old.len() {
                    if self.vis()[i] == self.vis()[j] {
                        assert(vis_old[i] == e.url@.normalized);
                    }
                }
            }
            assert forall|i: int|
                0 <= i < self.srcs().len() implies strs_contain(
                self.vis(),
                (#[trigger] self.srcs()[i]).url.normalized,
            ) by {
                lemma_strs_contain_push(vis_old, e.url@.normalized, self.srcs()[i].url.normalized);
            }
        }
        if !is_allowed(&e.url, self.request.allow_local) {
            return Action::Skip;
        }
        let wait: u64 = if !e.url.host_text.as_str().is_empty() {
            self.politeness.prepare_request(e.url.host_text.as_str(), now_ms)
        } else {
            0
        };
        let url_copy = e.url.clone();
        proof {
            assert(!strs_contain(source_norms(old(self).srcs()), e.url@.normalized)) by {
                if strs_contain(source_norms(old(self).srcs()), e.url@.normalized) {
                    let j = choose|j: int|
                        0 <= j < source_norms(old(self).srcs()).len() && source_norms(
                            old(self).srcs(),
                        )[j] == e.url@.normalized;
                    assert(strs_contain(vis_old, old(self).srcs()[j].url.normalized));
                }
            }
        }
        self.phase = Phase::Fetching(e);
        Action::Fetch { url: url_copy, wait_ms: wait }
    }
}

/// The candidate order handed to selection: by tier (`High` first), ties
/// broken by the normalized URL.
pub open spec fn lt_cand(a: CandModel, b: CandModel) -> bool {
    ||| tier_rank(a.trust_tier) < tier_rank(b.trust_tier)
    ||| (tier_rank(a.trust_tier) == tier_rank(b.trust_tier) && lex_lt(
        a.url.normalized,
        b.url.normalized,
    ))
}

/// `c` inserted behind every element it does not sort strictly before.
pub open spec fn insert_sorted(c: CandModel, s: Seq<CandModel>) -> Seq<CandModel>
    decreases s.len(),
{
    if s.len() == 0 {
        seq![c]
    } else if lt_cand(c, s[0]) {
        seq![c] + s
    } else {
        seq![s[0]] + insert_sorted(c, s.skip(1))
    }
}

/// Stable insertion sort under the candidate order.
pub open spec fn sort_cands(s: Seq<CandModel>) -> Seq<CandModel>
    decreases s.len(),
{
    if s.len() == 0 {
        Seq::empty()
    } else {
        insert_sorted(s.last(), sort_cands(s.drop_last()))
    }
}

/// Whether a candidate with this normalized URL was already taken.
pub open spec fn cands_contain(have: Seq<CandModel>, norm: Seq<char>) -> bool {
    exists|j: int| 0 <= j < have.len() && have[j].url.normalized == norm
}

/// The normalized URLs of a candidate list, in order.
pub open spec fn cand_norm_seq(cands: Seq<CandModel>) -> Seq<Seq<char>> {
    cands.map_values(|c: CandModel| c.url.normalized)
}

/// What scanning a page's outbound links yields, one link at a time: links
/// that parse, are admissible, not yet visited, and not yet taken become
/// candidates in order of first appearance, each with its recorded anchor
/// text and classified tier; one more link is taken once the count reaches
/// `cap` minus one, and nothing after that.
pub open spec fn cand_rec(
    links: Seq<Seq<char>>,
    visited: Seq<Seq<char>>,
    amap: Seq<(Seq<char>, Seq<char>)>,
    allow: bool,
    cap: int,
    have: Seq<CandModel>,
) -> Seq<CandModel>
    decreases links.len(),
{
    if links.len() == 0 {
        have
    } else {
        match crate::urls::url_parse_of(links[0]) {
            Some(u) => if allowed_spec(u, allow) && !strs_contain(visited, u.normalized)
                && !cands_contain(have, u.normalized) {
                let have2 = have.push(
                    CandModel {
                        url: u,
                        anchor_text: amap_lookup(amap, u.normalized),
                        trust_tier: classify_spec(u),
                    },
                );
                if have2.len() >= cap {
                    have2
                } else {
                    cand_rec(links.skip(1), visited, amap, allow, cap, have2)
                }
            } else {
                cand_rec(links.skip(1), visited, amap, allow, cap, have)
            },
            None => cand_rec(links.skip(1), visited, amap, allow, cap, have),
        }
    }
}

/// The candidates a page offers to child selection, before sorting.
pub open spec fn candidates_spec(
    links: Seq<Seq<char>>,
    visited: Seq<Seq<char>>,
    amap: Seq<(Seq<char>, Seq<char>)>,
    allow: bool,
    cap: int,
) -> Seq<CandModel> {
    cand_rec(links, visited, amap, allow, cap, Seq::empty())
}

/// The frontier after the selected candidates are enqueued at `depth`, each
/// re-checked for admissibility and classified.
pub open spec fn push_cands(
    f: FrontierModel,
    cands: Seq<CandModel>,
    depth: int,
    allow: bool,
) -> FrontierModel
    decreases cands.len(),
{
    if cands.len() == 0 {
        f
    } else {
        let f2 = if allowed_spec(cands[0].url, allow) {
            f.push_model(EntryModel { url: cands[0].url, depth }, classify_spec(cands[0].url))
        } else {
            f
        };
        push_cands(f2, cands.skip(1), depth, allow)
    }
}

/// Whether `s` is ordered under the candidate order: no later element sorts
/// strictly before an earlier one.
pub open spec fn cands_sorted(s: Seq<CandModel>) -> bool {
    forall|i: int, j: int| 0 <= i < j < s.len() ==> !lt_cand(s[j], s[i])
}

/// Whether `x` occurs in `s`.
pub open spec fn has_cand(s: Seq<CandModel>, x: CandModel) -> bool {
    exists|m: int| 0 <= m < s.len() && s[m] == x
}

proof fn lemma_lt_cand_irrefl(a: CandModel)
    ensures
        !lt_cand(a, a),
{
    crate::text::lemma_lex_lt_irrefl(a.url.normalized);
}

proof fn lemma_lt_cand_trans(a: CandModel, b: CandModel, c: CandModel)
    requires
        lt_cand(a, b),
        lt_cand(b, c),
    ensures
        lt_cand(a, c),
{
    if tier_rank(a.trust_tier) == tier_rank(b.trust_tier) && tier_rank(b.trust_tier) == tier_rank(
        c.trust_tier,
    ) {
        crate::text::lemma_lex_lt_trans(a.url.normalized, b.url.normalized, c.url.normalized);
    }
}

proof fn lemma_insert_sorted_elems(c: CandModel, s: Seq<CandModel>)
    ensures
        insert_sorted(c, s).len() == s.len() + 1,
        forall|k: int|
            0 <= k < insert_sorted(c, s).len() ==> (#[trigger] insert_sorted(c, s)[k]) == c
                || has_cand(s, insert_sorted(c, s)[k]),
    decreases s.len(),
{
    let r = insert_sorted(c, s);
    if s.len() == 0 {
    } else if lt_cand(c, s[0]) {
        assert forall|k: int| 0 <= k < r.len() implies (#[trigger] r[k]) == c || has_cand(
            s,
            r[k],
        ) by {
            if k > 0 {
                assert(s[k - 1] == r[k]);
            }
        }
    } else {
        lemma_insert_sorted_elems(c, s.skip(1));
        let t = insert_sorted(c, s.skip(1));
        assert forall|k: int| 0 <= k < r.len() implies (#[trigger] r[k]) == c || has_cand(
            s,
            r[k],
        ) by {
            if k > 0 {
                assert(r[k] == t[k - 1]);
                if t[k - 1] != c {
                    let m = choose|m: int| 0 <= m < s.skip(1).len() && s.skip(1)[m] == t[k - 1];
                    assert(s[m + 1] == t[k - 1]);
                }
            }
        }
    }
}

proof fn lemma_insert_sorted_keeps_sorted(c: CandModel, s: Seq<CandModel>)
    requires
        cands_sorted(s),
    ensures
        cands_sorted(insert_sorted(c, s)),
    decreases s.len(),
{
    let r = insert_sorted(c, s);
    if s.len() == 0 {
    } else if lt_cand(c, s[0]) {
        assert forall|i: int, j: int| 0 <= i < j < r.len() implies !lt_cand(r[j], r[i]) by {
            if i == 0 {
                assert(r[j] == s[j - 1]);
                if lt_cand(s[j - 1], c) {
                    lemma_lt_cand_trans(s[j - 1], c, s[0]);
                    if j == 1 {
                        lemma_lt_cand_irrefl(s[0]);
                    }
                }
            } else {
                assert(r[i] == s[i - 1] && r[j] == s[j - 1]);
            }
        }
    } else {
        assert(cands_sorted(s.skip(1))) by {
            assert forall|i: int, j: int|
                0 <= i < j < s.skip(1).len() implies !lt_cand(s.skip(1)[j], s.skip(1)[i]) by {
                assert(s.skip(1)[i] == s[i + 1] && s.skip(1)[j] == s[j + 1]);
            }
        }
        lemma_insert_sorted_keeps_sorted(c, s.skip(1));
        lemma_insert_sorted_elems(c, s.skip(1));
        let t = insert_sorted(c, s.skip(1));
        assert forall|i: int, j: int| 0 <= i < j < r.len() implies !lt_cand(r[j], r[i]) by {
            if i == 0 {
                assert(r[j] == t[j - 1]);
                if t[j - 1] == c {
                    assert(!lt_cand(c, s[0]));
                } else {
                    let m = choose|m: int| 0 <= m < s.skip(1).len() && s.skip(1)[m] == t[j - 1];
                    assert(s[m + 1] == t[j - 1]);
                }
            } else {
                assert(r[i] == t[i - 1] && r[j] == t[j - 1]);
            }
        }
    }
}

/// The candidate list handed to selection is ordered: tiers ascend (`High`
/// first), and candidates of one tier are ordered by their normalized URL —
/// the trust-ordered view the oracle is given, which also makes the cheap
/// path's truncation meaningful.
pub proof fn lemma_sort_cands_sorted(s: Seq<CandModel>)
    ensures
        cands_sorted(sort_cands(s)),
    decreases s.len(),
{
    if s.len() > 0 {
        lemma_sort_cands_sorted(s.drop_last());
        lemma_insert_sorted_keeps_sorted(s.last(), sort_cands(s.drop_last()));
    }
}

proof fn lemma_insert_sorted_multiset(c: CandModel, s: Seq<CandModel>)
    ensures
        insert_sorted(c, s).to_multiset() == s.to_multiset().insert(c),
    decreases s.len(),
{
    broadcast use vstd::seq_lib::group_to_multiset_ensures;

    if s.len() == 0 {
        assert(seq![c] =~= Seq::<CandModel>::empty().push(c));
        assert(Seq::<CandModel>::empty().push(c).to_multiset() =~= Seq::<
            CandModel,
        >::empty().to_multiset().insert(c));
        assert(Seq::<CandModel>::empty().to_multiset().insert(c) =~= s.to_multiset().insert(c));
    } else if lt_cand(c, s[0]) {
        assert(seq![c] + s =~= s.insert(0, c));
        vstd::seq_lib::to_multiset_insert(s, 0, c);
    } else {
        lemma_insert_sorted_multiset(c, s.skip(1));
        let t = insert_sorted(c, s.skip(1));
        assert(seq![s[0]] + t =~= t.insert(0, s[0]));
        vstd::seq_lib::to_multiset_insert(t, 0, s[0]);
        assert(s =~= s.skip(1).insert(0, s[0]));
        vstd::seq_lib::to_multiset_insert(s.skip(1), 0, s[0]);
        assert(s.skip(1).to_multiset().insert(c).insert(s[0]) =~= s.skip(1).to_multiset().insert(
            s[0],
        ).insert(c));
    }
}

/// Sorting the candidates loses and invents nothing: the sorted list is a
/// permutation of the list that was built from the page's links.
pub proof fn lemma_sort_cands_permutes(s: Seq<CandModel>)
    ensures
        sort_cands(s).to_multiset() == s.to_multiset(),
    decreases s.len(),
{
    broadcast use vstd::seq_lib::group_to_multiset_ensures;

    if s.len() > 0 {
        lemma_sort_cands_permutes(s.drop_last());
        lemma_insert_sorted_multiset(s.last(), sort_cands(s.drop_last()));
        assert(s =~= s.drop_last().push(s.last()));
        assert(s.drop_last().push(s.last()).to_multiset() =~= s.drop_last().to_multiset().insert(
            s.last(),
        ));
    }
}

impl Clone for LinkCandidate {
    fn clone(&self) -> (r: Self)
        ensures
            r@ == self@,
    {
        LinkCandidate {
            url: self.url.clone(),
            anchor_text: self.anchor_text.clone(),
            trust_tier: self.trust_tier,
        }
    }
}

/// Whether the list already holds a candidate with this normalized URL.
fn cands_have_norm(v: &Vec<LinkCandidate>, s: &str) -> (r: bool)
    ensures
        r == cands_contain(v.deep_view(), s@),
{
    let n: usize = v.len();
    let mut i: usize = 0;
    while i < n
        invariant
            n == v@.len(),
            i <= n,
            forall|j: int| 0 <= j < i ==> v.deep_view()[j].url.normalized != s@,
        decreases n - i,
    {
        if crate::text::str_eq(v[i].url.normalized.as_str(), s) {
            proof {
                assert(v.deep_view()[i as int].url.normalized == s@);
            }
            return true;
        }
        i = i + 1;
    }
    false
}

/// Whether `a` sorts strictly before `b` in the candidate order.
fn lt_cand_exec(a: &LinkCandidate, b: &LinkCandidate) -> (r: bool)
    ensures
        r == lt_cand(a@, b@),
{
    let ra = a.trust_tier.rank();
    let rb = b.trust_tier.rank();
    if ra < rb {
        return true;
    }
    if ra > rb {
        return false;
    }
    str_lt(a.url.normalized.as_str(), b.url.normalized.as_str())
}

proof fn lemma_insert_sorted_at(s: Seq<CandModel>, c: CandModel, i: int)
    requires
        0 <= i <= s.len(),
        forall|j: int| 0 <= j < i ==> !lt_cand(c, s[j]),
        i < s.len() ==> lt_cand(c, s[i]),
    ensures
        insert_sorted(c, s) == s.take(i) + seq![c] + s.skip(i),
    decreases i,
{
    if i == 0 {
        if s.len() == 0 {
            assert(seq![c] =~= s.take(0) + seq![c] + s.skip(0));
        } else {
            assert(seq![c] + s =~= s.take(0) + seq![c] + s.skip(0));
        }
    } else {
        lemma_insert_sorted_at(s.skip(1), c, i - 1);
        assert(s.skip(1).take(i - 1) =~= s.take(i).skip(1));
        assert(s.skip(1).skip(i - 1) =~= s.skip(i));
        assert(seq![s[0]] + (s.skip(1).take(i - 1) + seq![c] + s.skip(1).skip(i - 1)) =~= s.take(i)
            + seq![c] + s.skip(i));
    }
}

/// Inserts one candidate into an already-sorted list, behind its equals.
fn insert_cand(out: &mut Vec<LinkCandidate>, c: LinkCandidate)
    ensures
        final(out).deep_view() == insert_sorted(c@, old(out).deep_view()),
{
    let n: usize = out.len();
    let mut i: usize = 0;
    while i < n && !lt_cand_exec(&c, &out[i])
        invariant
            n == out@.len(),
            i <= n,
            out.deep_view() == old(out).deep_view(),
            forall|j: int| 0 <= j < i ==> !lt_cand(c@, out.deep_view()[j]),
        decreases n - i,
    {
        i = i + 1;
    }
    let ghost s = out.deep_view();
    let ghost c_m = c@;
    let ghost ii = i as int;
    out.insert(i, c);
    proof {
        lemma_insert_sorted_at(s, c_m, ii);
        assert(out.deep_view() =~= s.take(ii) + seq![c_m] + s.skip(ii));
    }
}

/// Sorts the candidates by (tier, URL), stably.
fn sort_candidates(cands: Vec<LinkCandidate>) -> (r: Vec<LinkCandidate>)
    ensures
        r.deep_view() == sort_cands(cands.deep_view()),
{
    let n: usize = cands.len();
    let mut out: Vec<LinkCandidate> = Vec::new();
    let mut i: usize = 0;
    proof {
        assert(out.deep_view() =~= Seq::<CandModel>::empty());
        assert(cands.deep_view().take(0) =~= Seq::<CandModel>::empty());
    }
    while i < n
        invariant
            n == cands.deep_view().len(),
            i <= n,
            out.deep_view() == sort_cands(cands.deep_view().take(i as int)),
        decreases n - i,
    {
        proof {
            assert(cands.deep_view().take(i + 1).drop_last() =~= cands.deep_view().take(i as int));
            assert(cands.deep_view().take(i + 1).last() == cands.deep_view()[i as int]);
        }
        insert_cand(&mut out, cands[i].clone());
        i = i + 1;
    }
    proof {
        assert(cands.deep_view().take(n as int) =~= cands.deep_view());
    }
    out
}

/// Builds the candidate list from a page's outbound links: admissible, not
/// yet visited, deduplicated, in order of first appearance, capped.
fn build_candidates(
    links: &Vec<String>,
    visited: &Vec<String>,
    amap: &AnchorMap,
    allow: bool,
    cap: usize,
) -> (r: Vec<LinkCandidate>)
    ensures
        r.deep_view() == candidates_spec(links.deep_view(), visited.deep_view(), amap@, allow, cap as int),
{
    let n: usize = links.len();
    let mut out: Vec<LinkCandidate> = Vec::new();
    let mut i: usize = 0;
    proof {
        assert(links.deep_view().skip(0) =~= links.deep_view());
        assert(out.deep_view() =~= Seq::<CandModel>::empty());
    }
    loop
        invariant_except_break
            i <= n,
            n == links.deep_view().len(),
            candidates_spec(links.deep_view(), visited.deep_view(), amap@, allow, cap as int)
                == cand_rec(
                links.deep_view().skip(i as int),
                visited.deep_view(),
                amap@,
                allow,
                cap as int,
                out.deep_view(),
            ),
        ensures
            out.deep_view() == candidates_spec(
                links.deep_view(),
                visited.deep_view(),
                amap@,
                allow,
                cap as int,
            ),
        decreases n - i,
    {
        if i >= n {
            proof {
                assert(links.deep_view().skip(i as int) =~= Seq::<Seq<char>>::empty());
            }
            break ;
        }
        let ghost rest = links.deep_view().skip(i as int);
        let ghost out_old = out.deep_view();
        proof {
            assert(rest[0] == links.deep_view()[i as int]);
            assert(rest.skip(1) =~= links.deep_view().skip(i + 1));
        }
        match crate::urls::parse_url(links[i].as_str()) {
            Some(u) => {
                let admissible = is_allowed(&u, allow);
                let fresh = !crate::openai::norms_contain(visited, u.normalized.as_str());
                let new_cand = !cands_have_norm(&out, u.normalized.as_str());
                if admissible && fresh && new_cand {
                    let ghost u_m = u@;
                    let anchor_text = amap.lookup(u.normalized.as_str());
                    let tier = classify_trust_tier(&u);
                    out.push(LinkCandidate { url: u, anchor_text, trust_tier: tier });
                    proof {
                        assert(out.deep_view() =~= out_old.push(
                            CandModel {
                                url: u_m,
                                anchor_text: amap_lookup(amap@, u_m.normalized),
                                trust_tier: classify_spec(u_m),
                            },
                        ));
                    }
                    if out.len() >= cap {
                        break ;
                    }
                }
            },
            None => {},
        }
        i = i + 1;
    }
    out
}

/// The crawl-delay hint a fetch outcome carries; a failed attempt carries
/// none.
pub open spec fn outcome_delay(o: FetchOutcome) -> int {
    match o {
        FetchOutcome::Unavailable => 0,
        FetchOutcome::Page { delay_hint_ms, .. } => delay_hint_ms as int,
    }
}

/// What the crawl asks after a page was handled: either go on popping, or
/// put these candidates to the oracle and hand the answer to `on_children`.
pub enum PageStep {
    Proceed,
    AskOracle {
        query: String,
        page_url: ParsedUrl,
        excerpt: String,
        candidates: Vec<LinkCandidate>,
        max_select: usize,
    },
}

impl Crawler {
    /// The entry whose fetch is in flight.
    pub open spec fn pending(&self) -> EntryModel
        recommends
            self.is_fetching(),
    {
        self.phase->Fetching_0@
    }

    /// Handles a fetch outcome for the pending page. A failure is soft: the
    /// politeness floor is still applied and the loop goes on. A fetched page
    /// is extracted (a failure there skips it too); an extracted page becomes
    /// a source, and — when it is under the depth ceiling — its outbound
    /// links become candidates: all of them enter the frontier when they fit
    /// the per-page budget, otherwise the caller is told to consult the
    /// oracle. The oracle is asked only in that last case, at most once per
    /// page.
    #[verifier::rlimit(100)]
    pub fn on_page(&mut self, outcome: FetchOutcome) -> (r: PageStep)
        requires
            old(self).wf(),
            old(self).is_fetching(),
        ensures
            final(self).wf(),
            final(self).request == old(self).request,
            final(self).started_ms == old(self).started_ms,
            final(self).seeds == old(self).seeds,
            final(self).vis() == old(self).vis(),
            final(self).politeness@ == (if old(self).pending().url.host_text.len() > 0 {
                bump_min(
                    old(self).politeness@,
                    old(self).pending().url.host_text,
                    outcome_delay(outcome),
                )
            } else {
                old(self).politeness@
            }),
            ({
                let p = old(self).pending();
                let req = old(self).request@;
                match outcome {
                    FetchOutcome::Unavailable => {
                        &&& final(self).srcs() == old(self).srcs()
                        &&& final(self).frontier@ == old(self).frontier@
                        &&& final(self).is_idle()
                        &&& r is Proceed
                    },
                    FetchOutcome::Page { html, links, delay_hint_ms } => {
                        match extract_spec(p.url.normalized, html@) {
                            None => {
                                &&& final(self).srcs() == old(self).srcs()
                                &&& final(self).frontier@ == old(self).frontier@
                                &&& final(self).is_idle()
                                &&& r is Proceed
                            },
                            Some((ex, amap)) => {
                                &&& final(self).srcs() == old(self).srcs().push(
                                    SourceModel {
                                        url: p.url,
                                        trust_tier: classify_spec(p.url),
                                        excerpt: ex,
                                    },
                                )
                                &&& {
                                    let cands = sort_cands(
                                        candidates_spec(
                                            links.deep_view(),
                                            old(self).vis(),
                                            amap,
                                            req.allow_local,
                                            req.max_child_candidates,
                                        ),
                                    );
                                    if p.depth >= req.max_depth || req.max_children_per_page == 0
                                        || cands.len() == 0 {
                                        &&& final(self).frontier@ == old(self).frontier@
                                        &&& final(self).is_idle()
                                        &&& r is Proceed
                                    } else if cands.len() <= req.max_children_per_page {
                                        &&& final(self).frontier@ == push_cands(
                                            old(self).frontier@,
                                            cands,
                                            p.depth + 1,
                                            req.allow_local,
                                        )
                                        &&& final(self).is_idle()
                                        &&& r is Proceed
                                    } else {
                                        &&& final(self).frontier@ == old(self).frontier@
                                        &&& (final(self).phase matches Phase::Selecting(ps)
                                            && ps.depth as int == p.depth
                                            && ps.cand_norms.deep_view() == cand_norm_seq(cands))
                                        &&& (r matches PageStep::AskOracle {
                                            query,
                                            page_url,
                                            excerpt,
                                            candidates,
                                            max_select,
                                        } && query@ == req.query && page_url@ == p.url && excerpt@
                                            == ex && candidates.deep_view() == cands && max_select
                                            as int == req.max_children_per_page)
                                    }
                                }
                            },
                        }
                    },
                }
            }),
            forall|u: Seq<char>|
                #![trigger strs_contain(source_norms(final(self).srcs()), u)]
                strs_contain(source_norms(final(self).srcs()), u) && !strs_contain(
                    source_norms(old(self).srcs()),
                    u,
                ) ==> u == old(self).pending().url.normalized,
            (r is AskOracle) <==> ({
                let p = old(self).pending();
                let req = old(self).request@;
                &&& outcome matches FetchOutcome::Page { html, links, .. }
                &&& extract_spec(p.url.normalized, html@) matches Some((ex, amap))
                &&& p.depth < req.max_depth
                &&& req.max_children_per_page > 0
                &&& sort_cands(
                    candidates_spec(
                        links.deep_view(),
                        old(self).vis(),
                        amap,
                        req.allow_local,
                        req.max_child_candidates,
                    ),
                ).len() > req.max_children_per_page
            }),
    {
        let (p_url, p_depth): (ParsedUrl, usize) = match &self.phase {
            Phase::Fetching(p) => (p.url.clone(), p.depth),
            _ => vstd::pervasive::unreached(),
        };
        self.phase = Phase::Idle;
        let ghost srcs_old = self.srcs();
        let ghost norms_old = source_norms(srcs_old);
        match outcome {
            FetchOutcome::Unavailable => {
                if !p_url.host_text.as_str().is_empty() {
                    self.politeness.record_delay(p_url.host_text.as_str(), 0);
                }
                PageStep::Proceed
            },
            FetchOutcome::Page { html, links, delay_hint_ms } => {
                if !p_url.host_text.as_str().is_empty() {
                    self.politeness.record_delay(p_url.host_text.as_str(), delay_hint_ms);
                }
                let extracted = extract_excerpt_and_anchor_map(&p_url, html.as_str());
                let (excerpt, amap) = match extracted {
                    Some(ea) => ea,
                    None => {
                        return PageStep::Proceed;
                    },
                };
                let tier = classify_trust_tier(&p_url);
                let ghost p_m = old(self).pending();
                let new_source = Source {
                    url: p_url.clone(),
                    trust_tier: tier,
                    excerpt: excerpt.clone(),
                };
                let ghost src_m = new_source@;
                self.sources.push(new_source);
                proof {
                    assert(self.srcs() =~= srcs_old.push(src_m));
                    assert(source_norms(self.srcs()) =~= norms_old.push(src_m.url.normalized));
                    assert forall|i: int, j: int|
                        0 <= i < j < source_norms(self.srcs()).len() implies source_norms(
                        self.srcs(),
                    )[i] != source_norms(self.srcs())[j] by {
                        if j == norms_old.len() {
                            if source_norms(self.srcs())[i] == source_norms(self.srcs())[j] {
                                assert(strs_contain(norms_old, p_m.url.normalized));
                            }
                        }
                    }
                    assert forall|u: Seq<char>|
                        strs_contain(source_norms(self.srcs()), u) && !strs_contain(
                            norms_old,
                            u,
                        ) implies u == p_m.url.normalized by {
                        let j = choose|j: int|
                            0 <= j < source_norms(self.srcs()).len() && source_norms(
                                self.srcs(),
                            )[j] == u;
                        if j < norms_old.len() {
                            assert(strs_contain(norms_old, u));
                        }
                    }
                }
                if p_depth >= self.request.max_depth {
                    return PageStep::Proceed;
                }
                let cands = build_candidates(
                    &links,
                    &self.visited,
                    &amap,
                    self.request.allow_local,
                    self.request.max_child_candidates,
                );
                let sorted = sort_candidates(cands);
                if self.request.max_children_per_page == 0 || sorted.len() == 0 {
                    return PageStep::Proceed;
                }
                let ghost cands_m = sorted.deep_view();
                let ghost sources_after = self.sources;
                let ghost politeness_after = self.politeness;
                if sorted.len() <= self.request.max_children_per_page {
                    let ghost f_start = self.frontier@;
                    let allow = self.request.allow_local;
                    let depth_child: usize = p_depth + 1;
                    let n: usize = sorted.len();
                    let mut i: usize = 0;
                    proof {
                        assert(cands_m.skip(0) =~= cands_m);
                    }
                    while i < n
                        invariant
                            n == cands_m.len(),
                            cands_m == sorted.deep_view(),
                            i <= n,
                            depth_child == p_depth + 1,
                            p_depth < self.request@.max_depth,
                            allow == self.request@.allow_local,
                            push_cands(f_start, cands_m, depth_child as int, allow) == push_cands(
                                self.frontier@,
                                cands_m.skip(i as int),
                                depth_child as int,
                                allow,
                            ),
                            self.request == old(self).request,
                            self.seeds == old(self).seeds,
                            self.started_ms == old(self).started_ms,
                            self.visited == old(self).visited,
                            self.sources == sources_after,
                            self.politeness == politeness_after,
                            self.phase is Idle,
                            self.srcs() == srcs_old.push(src_m),
                            distinct_seqs(self.vis()),
                            distinct_seqs(source_norms(self.srcs())),
                            forall|k: int|
                                0 <= k < self.srcs().len() ==> strs_contain(
                                    self.vis(),
                                    (#[trigger] self.srcs()[k]).url.normalized,
                                ),
                            forall|k: int|
                                0 <= k < self.srcs().len() ==> allowed_spec(
                                    (#[trigger] self.srcs()[k]).url,
                                    self.request@.allow_local,
                                ),
                            (self.request@.max_depth == 0 ==> forall|k: int|
                                0 <= k < self.srcs().len() ==> self.seeds@.contains(
                                    (#[trigger] self.srcs()[k]).url.normalized,
                                )),
                            forall|k: int|
                                0 <= k < self.frontier@.high.len() ==> self.entry_ok(
                                    #[trigger] self.frontier@.high[k],
                                ),
                            forall|k: int|
                                0 <= k < self.frontier@.medium.len() ==> self.entry_ok(
                                    #[trigger] self.frontier@.medium[k],
                                ),
                            forall|k: int|
                                0 <= k < self.frontier@.low.len() ==> self.entry_ok(
                                    #[trigger] self.frontier@.low[k],
                                ),
                        decreases n - i,
                    {
                        let ghost rest = cands_m.skip(i as int);
                        proof {
                            assert(rest[0] == cands_m[i as int]);
                            assert(rest.skip(1) =~= cands_m.skip(i + 1));
                        }
                        let c = &sorted[i];
                        if is_allowed(&c.url, allow) {
                            let ct = classify_trust_tier(&c.url);
                            self.frontier.push(c.url.clone(), depth_child, ct);
                        }
                        i = i + 1;
                    }
                    proof {
                        assert(cands_m.skip(n as int) =~= Seq::<CandModel>::empty());
                    }
                    PageStep::Proceed
                } else {
                    let n: usize = sorted.len();
                    let mut norms: Vec<String> = Vec::new();
                    let mut i: usize = 0;
                    proof {
                        assert(norms.deep_view() =~= cand_norm_seq(cands_m.take(0)));
                    }
                    while i < n
                        invariant
                            n == cands_m.len(),
                            cands_m == sorted.deep_view(),
                            i <= n,
                            norms.deep_view() == cand_norm_seq(cands_m.take(i as int)),
                        decreases n - i,
                    {
                        norms.push(sorted[i].url.normalized.clone());
                        proof {
                            assert(norms.deep_view() =~= cand_norm_seq(
                                cands_m.take(i as int),
                            ).push(cands_m[i as int].url.normalized));
                            assert(cand_norm_seq(cands_m.take(i + 1)) =~= cand_norm_seq(
                                cands_m.take(i as int),
                            ).push(cands_m[i as int].url.normalized));
                        }
                        i = i + 1;
                    }
                    proof {
                        assert(cands_m.take(n as int) =~= cands_m);
                    }
                    self.phase = Phase::Selecting(
                        PendingSelect { depth: p_depth, cand_norms: norms },
                    );
                    PageStep::AskOracle {
                        query: self.request.query.clone(),
                        page_url: p_url,
                        excerpt,
                        candidates: sorted,
                        max_select: self.request.max_children_per_page,
                    }
                }
            },
        }
    }
}

/// The frontier after the oracle's filtered selections are enqueued at
/// `depth`, each re-checked for admissibility and classified afresh.
pub open spec fn push_sels(
    f: FrontierModel,
    sels: Seq<SelModel>,
    depth: int,
    allow: bool,
) -> FrontierModel
    decreases sels.len(),
{
    if sels.len() == 0 {
        f
    } else {
        let f2 = if allowed_spec(sels[0].url, allow) {
            f.push_model(EntryModel { url: sels[0].url, depth }, classify_spec(sels[0].url))
        } else {
            f
        };
        push_sels(f2, sels.skip(1), depth, allow)
    }
}

impl Crawler {
    /// The page whose delegated selection is in flight.
    pub open spec fn selecting(&self) -> PendingSelect
        recommends
            self.is_selecting(),
    {
        self.phase->Selecting_0
    }

    /// Hands the oracle's raw answer back after an `AskOracle` step: the
    /// answer is filtered against the offered candidate set, deduplicated and
    /// capped, and the surviving links enter the frontier one level deeper.
    pub fn on_children(&mut self, raw: Vec<RawSelection>)
        requires
            old(self).wf(),
            old(self).is_selecting(),
        ensures
            final(self).wf(),
            final(self).is_idle(),
            final(self).request == old(self).request,
            final(self).started_ms == old(self).started_ms,
            final(self).seeds == old(self).seeds,
            final(self).vis() == old(self).vis(),
            final(self).srcs() == old(self).srcs(),
            final(self).politeness@ == old(self).politeness@,
            final(self).frontier@ == push_sels(
                old(self).frontier@,
                selections_spec(
                    raw.deep_view(),
                    old(self).selecting().cand_norms.deep_view(),
                    old(self).request@.max_children_per_page,
                ),
                old(self).selecting().depth + 1,
                old(self).request@.allow_local,
            ),
    {
        let mut ph = Phase::Idle;
        core::mem::swap(&mut ph, &mut self.phase);
        let (depth, cand_norms): (usize, Vec<String>) = match ph {
            Phase::Selecting(ps) => (ps.depth, ps.cand_norms),
            _ => vstd::pervasive::unreached(),
        };
        let sels = filter_selected(&raw, &cand_norms, self.request.max_children_per_page);
        let ghost sels_m = sels.deep_view();
        let ghost f_start = self.frontier@;
        let allow = self.request.allow_local;
        let depth_child: usize = depth + 1;
        let n: usize = sels.len();
        let mut i: usize = 0;
        proof {
            assert(sels_m.skip(0) =~= sels_m);
        }
        while i < n
            invariant
                n == sels_m.len(),
                sels_m == sels.deep_view(),
                i <= n,
                depth_child == depth + 1,
                depth < self.request@.max_depth,
                allow == self.request@.allow_local,
                push_sels(f_start, sels_m, depth_child as int, allow) == push_sels(
                    self.frontier@,
                    sels_m.skip(i as int),
                    depth_child as int,
                    allow,
                ),
                self.request == old(self).request,
                self.seeds == old(self).seeds,
                self.started_ms == old(self).started_ms,
                self.visited == old(self).visited,
                self.sources == old(self).sources,
                self.politeness == old(self).politeness,
                self.phase is Idle,
                distinct_seqs(self.vis()),
                distinct_seqs(source_norms(self.srcs())),
                forall|k: int|
                    0 <= k < self.srcs().len() ==> strs_contain(
                        self.vis(),
                        (#[trigger] self.srcs()[k]).url.normalized,
                    ),
                forall|k: int|
                    0 <= k < self.srcs().len() ==> allowed_spec(
                        (#[trigger] self.srcs()[k]).url,
                        self.request@.allow_local,
                    ),
                (self.request@.max_depth == 0 ==> forall|k: int|
                    0 <= k < self.srcs().len() ==> self.seeds@.contains(
                        (#[trigger] self.srcs()[k]).url.normalized,
                    )),
                self.srcs().len() <= self.request@.max_pages,
                forall|k: int|
                    0 <= k < self.frontier@.high.len() ==> self.entry_ok(
                        #[trigger] self.frontier@.high[k],
                    ),
                forall|k: int|
                    0 <= k < self.frontier@.medium.len() ==> self.entry_ok(
                        #[trigger] self.frontier@.medium[k],
                    ),
                forall|k: int|
                    0 <= k < self.frontier@.low.len() ==> self.entry_ok(
                        #[trigger] self.frontier@.low[k],
                    ),
            decreases n - i,
        {
            let ghost rest = sels_m.skip(i as int);
            proof {
                assert(rest[0] == sels_m[i as int]);
                assert(rest.skip(1) =~= sels_m.skip(i + 1));
            }
            let s = &sels[i];
            if is_allowed(&s.url, allow) {
                let ct = classify_trust_tier(&s.url);
                self.frontier.push(s.url.clone(), depth_child, ct);
            }
            i = i + 1;
        }
        proof {
            assert(sels_m.skip(n as int) =~= Seq::<SelModel>::empty());
        }
    }

    /// Ends the crawl and hands over the sources in discovery order.
    pub fn finish(self) -> (r: CrawlResult)
        ensures
            r@ == self.srcs(),
    {
        CrawlResult { sources: self.sources }
    }

}

/// The page budget holds at every point of a crawl: a well-formed crawler
/// never records more sources than `max_pages`.
pub proof fn lemma_sources_within_page_budget(c: &Crawler)
    requires
        c.wf(),
    ensures
        c.srcs().len() <= c.request@.max_pages,
{
}

/// Visit-once holds at every point of a crawl: the normalized URLs of a
/// well-formed crawler's sources are pairwise distinct.
pub proof fn lemma_sources_distinct(c: &Crawler)
    requires
        c.wf(),
    ensures
        forall|i: int, j: int|
            0 <= i < j < c.srcs().len() ==> c.srcs()[i].url.normalized != c.srcs()[j].url.normalized,
{
    assert forall|i: int, j: int|
        0 <= i < j < c.srcs().len() implies c.srcs()[i].url.normalized
        != c.srcs()[j].url.normalized by {
        assert(source_norms(c.srcs())[i] == c.srcs()[i].url.normalized);
        assert(source_norms(c.srcs())[j] == c.srcs()[j].url.normalized);
    }
}

/// At a zero depth ceiling only seeds are ever crawled: every source and
/// every queued entry of a well-formed crawler stems from the seed set.
pub proof fn lemma_depth_zero_only_seeds(c: &Crawler)
    requires
        c.wf(),
        c.request@.max_depth == 0,
    ensures
        forall|i: int|
            0 <= i < c.srcs().len() ==> c.seeds@.contains(
                (#[trigger] c.srcs()[i]).url.normalized,
            ),
        forall|i: int|
            0 <= i < c.frontier@.queue().len() ==> c.seeds@.contains(
                (#[trigger] c.frontier@.queue()[i]).url.normalized,
            ),
{
    assert forall|i: int|
        0 <= i < c.frontier@.queue().len() implies c.seeds@.contains(
        (#[trigger] c.frontier@.queue()[i]).url.normalized,
    ) by {
        let q = c.frontier@.queue();
        let h = c.frontier@.high;
        let m = c.frontier@.medium;
        if i < h.len() {
            assert(q[i] == h[i]);
        } else if i < h.len() + m.len() {
            assert(q[i] == m[i - h.len()]);
        } else {
            assert(q[i] == c.frontier@.low[i - h.len() - m.len()]);
        }
    }
}

/// A page whose fetch fails — robots-disallowed, bad status, transport
/// error — never becomes a source: its URL is marked visited when the fetch
/// is issued and is not a source then (this lemma); an unavailable outcome
/// adds no source (an `on_page` ensures); and a visited URL is never fetched
/// again (a `next_action` ensures), so no later step can source it either.
pub proof fn lemma_pending_url_not_yet_sourced(c: &Crawler)
    requires
        c.wf(),
        c.is_fetching(),
    ensures
        strs_contain(c.vis(), c.pending().url.normalized),
        !strs_contain(source_norms(c.srcs()), c.pending().url.normalized),
{
}

/// Admissibility holds at every point of a crawl: every source and every
/// queued entry of a well-formed crawler passed the scheme/host filter, and
/// every queued entry's depth is within the ceiling.
pub proof fn lemma_frontier_and_sources_admissible(c: &Crawler)
    requires
        c.wf(),
    ensures
        forall|i: int|
            0 <= i < c.srcs().len() ==> allowed_spec(
                (#[trigger] c.srcs()[i]).url,
                c.request@.allow_local,
            ),
        forall|i: int|
            0 <= i < c.frontier@.queue().len() ==> allowed_spec(
                (#[trigger] c.frontier@.queue()[i]).url,
                c.request@.allow_local,
            ) && 0 <= c.frontier@.queue()[i].depth <= c.request@.max_depth,
{
    assert forall|i: int|
        0 <= i < c.frontier@.queue().len() implies allowed_spec(
        (#[trigger] c.frontier@.queue()[i]).url,
        c.request@.allow_local,
    ) && 0 <= c.frontier@.queue()[i].depth <= c.request@.max_depth by {
        let q = c.frontier@.queue();
        let h = c.frontier@.high;
        let m = c.frontier@.medium;
        if i < h.len() {
            assert(q[i] == h[i]);
        } else if i < h.len() + m.len() {
            assert(q[i] == m[i - h.len()]);
        } else {
            assert(q[i] == c.frontier@.low[i - h.len() - m.len()]);
        }
    }
}

/// What holds of every entry a seeding run enqueued: depth zero, admissible,
/// and its URL among the seed set.
pub open spec fn seed_entry_ok(
    hits: Seq<crate::openai::HitModel>,
    allow: bool,
    e: EntryModel,
) -> bool {
    e.depth == 0 && allowed_spec(e.url, allow) && seed_set(hits, allow).contains(e.url.normalized)
}

/// The seed set of a suffix is contained in the seed set of the whole list.
proof fn lemma_seed_set_suffix(hits: Seq<crate::openai::HitModel>, allow: bool, i: int)
    requires
        0 <= i <= hits.len(),
    ensures
        forall|x: Seq<char>|
            seed_set(hits.skip(i), allow).contains(x) ==> #[trigger] seed_set(
                hits,
                allow,
            ).contains(x),
    decreases i,
{
    if i == 0 {
        assert(hits.skip(0) =~= hits);
    } else {
        lemma_seed_set_suffix(hits.skip(1), allow, i - 1);
        assert(hits.skip(1).skip(i - 1) =~= hits.skip(i));
        assert forall|x: Seq<char>|
            seed_set(hits.skip(i), allow).contains(x) implies #[trigger] seed_set(
            hits,
            allow,
        ).contains(x) by {
            assert(seed_set(hits.skip(1), allow).contains(x));
        }
    }
}

/// An admissible hit's normalized URL is in the seed set.
proof fn lemma_seed_set_member(hits: Seq<crate::openai::HitModel>, allow: bool, i: int)
    requires
        0 <= i < hits.len(),
        allowed_spec(hits[i].url, allow),
    ensures
        seed_set(hits, allow).contains(hits[i].url.normalized),
{
    lemma_seed_set_suffix(hits, allow, i);
    assert(hits.skip(i)[0] == hits[i]);
    assert(seed_set(hits.skip(i), allow).contains(hits[i].url.normalized));
}

} // verus!
