use llm_spider::extract::extract_excerpt_and_anchor_map;
use llm_spider::openai::{
    ensure_trailing_slash, filter_search_hits, filter_selected, model_supports_reasoning,
    model_supports_temperature, ParseReasoningEffortError, RawHit, RawSelection, ReasoningEffort,
};
use llm_spider::report::compose_markdown;
use llm_spider::spider::{CrawlResult, Frontier, Politeness, Source, UserRequest};
use llm_spider::text::{
    escape_md_inline, normalize_text, strip_tag_blocks, truncate_chars, truncate_to_char_limit,
};
use llm_spider::trust::{classify_trust_tier, ParseTrustTierError, TrustTier};
use llm_spider::urls::{is_allowed, parse_url, resolve_url};

fn url(s: &str) -> llm_spider::urls::ParsedUrl {
    parse_url(s).expect("parse")
}

#[test]
fn truncate_chars_takes_a_character_prefix() {
    assert_eq!(truncate_chars("hello", 3), "hel");
    assert_eq!(truncate_chars("hello", 10), "hello");
    assert_eq!(truncate_chars("hello", 0), "");
    assert_eq!(truncate_chars("日本語テキスト", 3), "日本語");
}

#[test]
fn truncate_to_char_limit_cuts_hard() {
    assert_eq!(truncate_to_char_limit("abcdef".to_string(), 4), "abcd");
    assert_eq!(truncate_to_char_limit("abc".to_string(), 5), "abc");
    assert_eq!(truncate_to_char_limit("abc".to_string(), 0), "");
}

#[test]
fn normalize_text_collapses_whitespace() {
    assert_eq!(normalize_text("  a \t\n b  c  "), "a b c");
    assert_eq!(normalize_text(""), "");
    assert_eq!(normalize_text(" \n\t "), "");
    assert_eq!(normalize_text("one"), "one");
}

#[test]
fn escape_md_inline_escapes_markdown_metacharacters() {
    assert_eq!(escape_md_inline("a[b]c`d\\e"), "a\\[b\\]c\\`d\\\\e");
    assert_eq!(escape_md_inline("plain"), "plain");
}

#[test]
fn strip_tag_blocks_removes_noscript_blocks() {
    assert_eq!(
        strip_tag_blocks("a<noscript>junk</noscript>b", "noscript"),
        "ab"
    );
    assert_eq!(
        strip_tag_blocks("a<NOSCRIPT foo=1>x</NoScript>b<noscript>y</noscript>c", "noscript"),
        "abc"
    );
    // an unterminated block removes the rest
    assert_eq!(strip_tag_blocks("a<noscript>junk", "noscript"), "a");
    assert_eq!(strip_tag_blocks("no blocks here", "noscript"), "no blocks here");
}

#[test]
fn trust_tier_as_str_and_from_str_round_trip() {
    assert_eq!(TrustTier::High.as_str(), "High");
    assert_eq!(TrustTier::Medium.as_str(), "Medium");
    assert_eq!(TrustTier::Low.as_str(), "Low");
    assert_eq!(TrustTier::from_str("  HIGH "), Ok(TrustTier::High));
    assert_eq!(TrustTier::from_str("medium"), Ok(TrustTier::Medium));
    assert_eq!(TrustTier::from_str("Low"), Ok(TrustTier::Low));
    assert_eq!(TrustTier::from_str(""), Err(ParseTrustTierError));
    assert_eq!(TrustTier::from_str("bogus"), Err(ParseTrustTierError));
}

#[test]
fn reasoning_effort_parses_names_and_aliases() {
    assert_eq!(ReasoningEffort::from_str("none"), Ok(ReasoningEffort::NoEffort));
    assert_eq!(ReasoningEffort::from_str(" X-High "), Ok(ReasoningEffort::XHigh));
    assert_eq!(ReasoningEffort::from_str("xhigh"), Ok(ReasoningEffort::XHigh));
    assert_eq!(ReasoningEffort::from_str("medium"), Ok(ReasoningEffort::Medium));
    assert_eq!(
        ReasoningEffort::from_str("whatever"),
        Err(ParseReasoningEffortError)
    );
    assert_eq!(ReasoningEffort::default(), ReasoningEffort::Medium);
    assert_eq!(ReasoningEffort::High.as_str(), "high");
    assert_eq!(ReasoningEffort::NoEffort.as_str(), "none");
}

#[test]
fn ensure_trailing_slash_appends_at_most_one() {
    assert_eq!(ensure_trailing_slash("http://a.example/v1"), "http://a.example/v1/");
    assert_eq!(ensure_trailing_slash("http://a.example/v1/"), "http://a.example/v1/");
    assert_eq!(ensure_trailing_slash(""), "/");
}

#[test]
fn reasoning_models_are_detected_by_name() {
    assert!(model_supports_reasoning("gpt-5"));
    assert!(model_supports_reasoning(" gpt-5-mini "));
    assert!(model_supports_reasoning("o3-mini"));
    assert!(!model_supports_reasoning("o"));
    assert!(!model_supports_reasoning("gpt-4o-mini"));
    assert!(model_supports_temperature("gpt-4o-mini"));
    assert!(!model_supports_temperature("o1"));
}

#[test]
fn parse_url_normalizes_and_strips_fragments() {
    let u = url("HTTP://Example.COM/p#frag");
    assert_eq!(u.normalized, "http://example.com/p");
    assert_eq!(u.scheme, "http");
    assert_eq!(u.host_text, "example.com");
    assert!(parse_url("not a url").is_none());
}

#[test]
fn resolve_url_joins_relative_references() {
    let r = resolve_url("http://example.com/a/b", "c#frag").expect("resolve");
    assert_eq!(r.normalized, "http://example.com/a/c");
    let abs = resolve_url("http://example.com/", "https://other.org/x").expect("resolve");
    assert_eq!(abs.normalized, "https://other.org/x");
}

#[test]
fn admissibility_filters_schemes_and_local_hosts() {
    assert!(is_allowed(&url("https://example.com/x"), false));
    assert!(!is_allowed(&url("ftp://example.com/x"), false));
    assert!(!is_allowed(&url("http://localhost/x"), false));
    assert!(!is_allowed(&url("http://dev.localhost/x"), false));
    assert!(!is_allowed(&url("http://127.0.0.1/x"), false));
    assert!(!is_allowed(&url("http://10.1.2.3/x"), false));
    assert!(!is_allowed(&url("http://192.168.0.9/x"), false));
    assert!(!is_allowed(&url("http://[::1]/x"), false));
    assert!(is_allowed(&url("http://127.0.0.1/x"), true));
    assert!(is_allowed(&url("http://localhost/x"), true));
}

#[test]
fn classify_trust_tier_follows_the_host_lists() {
    assert_eq!(classify_trust_tier(&url("https://docs.rs/url")), TrustTier::High);
    assert_eq!(classify_trust_tier(&url("https://doc.rust-lang.org/book")), TrustTier::High);
    assert_eq!(classify_trust_tier(&url("https://forge.rust-lang.org/")), TrustTier::High);
    assert_eq!(classify_trust_tier(&url("https://www.usa.gov/taxes")), TrustTier::High);
    assert_eq!(classify_trust_tier(&url("https://www.u-tokyo.ac.jp/")), TrustTier::High);
    assert_eq!(classify_trust_tier(&url("https://www.reddit.com/r/rust")), TrustTier::Low);
    assert_eq!(classify_trust_tier(&url("https://x.com/someone")), TrustTier::Low);
    assert_eq!(classify_trust_tier(&url("https://example.com/")), TrustTier::Medium);
    // the deny list wins over the suffix rules
    assert_eq!(classify_trust_tier(&url("https://x.com.gov.example.reddit.com/")), TrustTier::Low);
}

#[test]
fn extract_produces_bounded_excerpt_and_anchor_map() {
    let base = url("http://example.com/page");
    let html = "<html><body>\
                <noscript>hidden fallback</noscript>\
                <main><p>Hello   world.</p>\
                <a href=\"/x#frag\">Link   text</a>\
                <a href=\"/x\">Second text</a>\
                <a href=\"mailto:a@b.c\">Mail</a>\
                <a href=\"/empty\"> </a>\
                </main>\
                <p>outside the root</p>\
                </body></html>";
    let (excerpt, amap) = extract_excerpt_and_anchor_map(&base, html).expect("extract");
    assert_eq!(excerpt, "Hello world. Link text Second text Mail");
    assert!(!excerpt.contains("hidden"));
    assert!(!excerpt.contains("outside"));
    // first-seen anchor text wins, fragments are stripped
    assert_eq!(amap.lookup("http://example.com/x"), "Link text");
    assert!(!amap.has_key("mailto:a@b.c"));
    // empty visible text records no anchor
    assert!(!amap.has_key("http://example.com/empty"));
}

#[test]
fn extract_prefers_main_over_body() {
    let base = url("http://example.com/");
    let html = "<html><body><p>body text</p><main><p>main text</p></main></body></html>";
    let (excerpt, _) = extract_excerpt_and_anchor_map(&base, html).expect("extract");
    assert_eq!(excerpt, "main text");
}

#[test]
fn filter_search_hits_deduplicates_and_caps() {
    let raw = vec![
        RawHit { url: "https://a.example/#one".into(), title: Some("A".into()), trust_tier: Some("High".into()) },
        RawHit { url: "https://a.example/#two".into(), title: None, trust_tier: None },
        RawHit { url: "ftp://b.example/".into(), title: None, trust_tier: None },
        RawHit { url: "not a url".into(), title: None, trust_tier: None },
        RawHit { url: "https://c.example/".into(), title: None, trust_tier: Some("nonsense".into()) },
        RawHit { url: "https://d.example/".into(), title: None, trust_tier: None },
    ];
    let hits = filter_search_hits(&raw, 2);
    assert_eq!(hits.len(), 2);
    assert_eq!(hits[0].url.normalized, "https://a.example/");
    assert_eq!(hits[0].trust_tier, TrustTier::High);
    assert_eq!(hits[1].url.normalized, "https://c.example/");
    assert_eq!(hits[1].trust_tier, TrustTier::Medium);
}

#[test]
fn filter_selected_keeps_only_offered_candidates() {
    let cand_norms = vec![
        "https://a.example/".to_string(),
        "https://b.example/".to_string(),
    ];
    let raw = vec![
        RawSelection { url: "https://intruder.example/".into(), trust_tier: Some("High".into()) },
        RawSelection { url: "https://b.example/#frag".into(), trust_tier: Some("Low".into()) },
        RawSelection { url: "https://b.example/".into(), trust_tier: None },
        RawSelection { url: "https://a.example/".into(), trust_tier: None },
    ];
    let picked = filter_selected(&raw, &cand_norms, 5);
    assert_eq!(picked.len(), 2);
    assert_eq!(picked[0].url.normalized, "https://b.example/");
    assert_eq!(picked[0].trust_tier, TrustTier::Low);
    assert_eq!(picked[1].url.normalized, "https://a.example/");
    assert_eq!(picked[1].trust_tier, TrustTier::Medium);
    let capped = filter_selected(&raw, &cand_norms, 1);
    assert_eq!(capped.len(), 1);
}

#[test]
fn frontier_pops_by_tier_and_in_fifo_order() {
    let mut f = Frontier::new();
    f.push(url("https://m1.example/"), 0, TrustTier::Medium);
    f.push(url("https://h1.example/"), 1, TrustTier::High);
    f.push(url("https://l1.example/"), 0, TrustTier::Low);
    f.push(url("https://m2.example/"), 2, TrustTier::Medium);
    let order: Vec<String> = std::iter::from_fn(|| f.pop().map(|e| e.url.normalized))
        .collect();
    assert_eq!(
        order,
        vec![
            "https://h1.example/".to_string(),
            "https://m1.example/".to_string(),
            "https://m2.example/".to_string(),
            "https://l1.example/".to_string(),
        ]
    );
}

#[test]
fn politeness_enforces_the_minimum_interval() {
    let mut p = Politeness::new();
    let w0 = p.prepare_request("example.com", 0);
    assert_eq!(w0, 0);
    // the base floor applies even without any crawl-delay hint
    let w1 = p.prepare_request("example.com", 10);
    assert_eq!(w1, 140);
    // a crawl-delay hint raises the interval, and it never drops back
    p.record_delay("example.com", 500);
    p.record_delay("example.com", 0);
    let w2 = p.prepare_request("example.com", 200);
    assert_eq!(w2, 450);
    // another host is independent
    let w3 = p.prepare_request("other.example", 200);
    assert_eq!(w3, 0);
}

#[test]
fn compose_markdown_renders_the_exact_report() {
    let req = UserRequest {
        query: "q[1]".to_string(),
        max_chars: 4000,
        min_sources: 0,
        search_limit: 1,
        max_pages: 1,
        max_depth: 0,
        max_elapsed_ms: 1000,
        max_child_candidates: 1,
        max_children_per_page: 1,
        allow_local: false,
    };
    let empty = CrawlResult { sources: vec![] };
    assert_eq!(
        compose_markdown(&req, &empty),
        "# Spider Result\n\n## Query\n\n- q\\[1\\]\n\n## Findings\n\n- No sources collected.\n\n## Sources\n\n"
    );
    let one = CrawlResult {
        sources: vec![Source {
            url: url("https://example.com/a"),
            trust_tier: TrustTier::Medium,
            excerpt: "An [excerpt]".to_string(),
        }],
    };
    assert_eq!(
        compose_markdown(&req, &one),
        "# Spider Result\n\n## Query\n\n- q\\[1\\]\n\n## Findings\n\n\
         - [Medium] https://example.com/a\n  - An \\[excerpt\\]\n\n\
         ## Sources\n\n- [Medium] https://example.com/a\n"
    );
}

#[test]
fn compose_markdown_respects_the_character_budget() {
    let mut req = UserRequest {
        query: "budget".to_string(),
        max_chars: 10,
        min_sources: 3,
        search_limit: 1,
        max_pages: 1,
        max_depth: 0,
        max_elapsed_ms: 1000,
        max_child_candidates: 1,
        max_children_per_page: 1,
        allow_local: false,
    };
    let empty = CrawlResult { sources: vec![] };
    assert_eq!(compose_markdown(&req, &empty), "# Spider R");
    req.max_chars = 0;
    assert_eq!(compose_markdown(&req, &empty), "");
}

#[test]
fn compose_markdown_adds_a_note_below_min_sources() {
    let req = UserRequest {
        query: "q".to_string(),
        max_chars: 4000,
        min_sources: 3,
        search_limit: 1,
        max_pages: 1,
        max_depth: 0,
        max_elapsed_ms: 1000,
        max_child_candidates: 1,
        max_children_per_page: 1,
        allow_local: false,
    };
    let empty = CrawlResult { sources: vec![] };
    let out = compose_markdown(&req, &empty);
    assert!(out.contains("## Notes"));
    assert!(out.contains("`min_sources`"));
}
