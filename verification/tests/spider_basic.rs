use llm_spider::openai::{filter_search_hits, RawHit, RawSelection};
use llm_spider::report::compose_markdown;
use llm_spider::spider::{Action, CrawlResult, Crawler, FetchOutcome, PageStep, UserRequest};

struct FakeWeb {
    routes: Vec<(String, String, Vec<String>)>,
    blocked: Vec<String>,
    select_answers: Vec<String>,
    select_calls: usize,
    offered: Vec<Vec<String>>,
    offered_excerpts: Vec<String>,
}

impl FakeWeb {
    fn base_url() -> String {
        "http://127.0.0.1:4321".to_string()
    }

    fn default_routes() -> Self {
        let base = Self::base_url();
        let start_html = format!(
            "<html><body>\
             <h1>Start</h1>\
             <p>Start page text.</p>\
             <a href=\"{base}/a\">Page A</a>\
             <a href=\"{base}/b\">Page B</a>\
             </body></html>"
        );
        let a_html = "<html><body><h1>A</h1><p>Alpha text.</p></body></html>".to_string();
        let b_html = "<html><body><h1>B</h1><p>Beta text.</p></body></html>".to_string();
        let routes = vec![
            (
                format!("{base}/start"),
                start_html,
                vec![format!("{base}/a"), format!("{base}/b")],
            ),
            (format!("{base}/a"), a_html, vec![]),
            (format!("{base}/b"), b_html, vec![]),
        ];
        FakeWeb {
            routes,
            blocked: vec![],
            select_answers: vec![format!("{base}/a")],
            select_calls: 0,
            offered: vec![],
            offered_excerpts: vec![],
        }
    }

    fn run(&mut self, request: &UserRequest, seed_urls: &[String]) -> CrawlResult {
        let raw: Vec<RawHit> = seed_urls
            .iter()
            .map(|u| RawHit {
                url: u.clone(),
                title: Some("Start".to_string()),
                trust_tier: None,
            })
            .collect();
        let hits = filter_search_hits(&raw, request.search_limit);
        let mut crawler = Crawler::new(request.clone(), hits, 0);
        let mut now: u64 = 0;
        loop {
            match crawler.next_action(now) {
                Action::Done => break,
                Action::Skip => {}
                Action::Fetch { url, wait_ms } => {
                    now = now.saturating_add(wait_ms).saturating_add(1);
                    let norm = url.normalized.clone();
                    let outcome = if self.blocked.contains(&norm) {
                        FetchOutcome::Unavailable
                    } else {
                        match self.routes.iter().find(|r| r.0 == norm) {
                            Some(r) => FetchOutcome::Page {
                                html: r.1.clone(),
                                links: r.2.clone(),
                                delay_hint_ms: 0,
                            },
                            None => FetchOutcome::Unavailable,
                        }
                    };
                    match crawler.on_page(outcome) {
                        PageStep::Proceed => {}
                        PageStep::AskOracle {
                            candidates,
                            excerpt,
                            ..
                        } => {
                            self.select_calls += 1;
                            self.offered.push(
                                candidates
                                    .iter()
                                    .map(|c| c.url.normalized.clone())
                                    .collect(),
                            );
                            self.offered_excerpts.push(excerpt);
                            let answer: Vec<RawSelection> = self
                                .select_answers
                                .iter()
                                .map(|u| RawSelection {
                                    url: u.clone(),
                                    trust_tier: None,
                                })
                                .collect();
                            crawler.on_children(answer);
                        }
                    }
                }
            }
        }
        crawler.finish()
    }
}

fn request(
    search_limit: usize,
    max_pages: usize,
    max_depth: usize,
    min_sources: usize,
    max_chars: usize,
    max_children_per_page: usize,
) -> UserRequest {
    UserRequest {
        query: "q".to_string(),
        max_chars,
        min_sources,
        search_limit,
        max_pages,
        max_depth,
        max_elapsed_ms: 30_000,
        max_child_candidates: 20,
        max_children_per_page,
        allow_local: true,
    }
}

#[test]
fn spider_respects_max_pages() {
    let mut web = FakeWeb::default_routes();
    let base = FakeWeb::base_url();
    let start_url = format!("{base}/start");
    let req = request(1, 1, 1, 1, 4000, 3);
    let result = web.run(&req, &[start_url.clone()]);
    assert_eq!(result.sources.len(), 1);
    assert_eq!(result.sources[0].url.normalized, start_url);
    assert_eq!(web.select_calls, 0);
    let out = compose_markdown(&req, &result);
    assert!(out.contains("## Sources"));
    assert!(out.contains(&start_url));
    assert!(out.contains("[Medium]"));
    assert!(!out.contains("/a"));
    assert!(!out.contains("/b"));
}

#[test]
fn spider_respects_max_depth_zero() {
    let mut web = FakeWeb::default_routes();
    let base = FakeWeb::base_url();
    let start_url = format!("{base}/start");
    let req = request(1, 10, 0, 1, 4000, 3);
    let result = web.run(&req, &[start_url.clone()]);
    let out = compose_markdown(&req, &result);
    assert!(out.contains(&start_url));
    assert!(!out.contains("/a"));
    assert!(!out.contains("/b"));
    assert_eq!(web.select_calls, 0);
}

#[test]
fn spider_output_respects_max_chars() {
    let mut web = FakeWeb::default_routes();
    let base = FakeWeb::base_url();
    let start_url = format!("{base}/start");
    let req = request(1, 10, 1, 1, 80, 3);
    let result = web.run(&req, &[start_url]);
    let out = compose_markdown(&req, &result);
    assert!(out.chars().count() <= 80);
}

#[test]
fn spider_llm_selects_child_links() {
    let mut web = FakeWeb::default_routes();
    let base = FakeWeb::base_url();
    let start_url = format!("{base}/start");
    let child_url = format!("{base}/a");
    let req = request(1, 2, 1, 2, 4000, 1);
    let result = web.run(&req, &[start_url.clone()]);
    let out = compose_markdown(&req, &result);
    assert!(out.contains(&start_url));
    assert!(out.contains(&child_url));
    assert_eq!(web.select_calls, 1);
    assert_eq!(result.sources.len(), 2);
    assert_eq!(result.sources[0].url.normalized, start_url);
    assert_eq!(result.sources[1].url.normalized, child_url);
    // the oracle saw the full candidate list, tier-ordered with URL tie-break
    assert_eq!(
        web.offered,
        vec![vec![format!("{base}/a"), format!("{base}/b")]]
    );
    assert!(web.offered_excerpts[0].contains("Start page text."));
}

#[test]
fn candidate_budget_caps_which_links_are_considered() {
    let mut web = FakeWeb::default_routes();
    let base = FakeWeb::base_url();
    let start_url = format!("{base}/start");
    let c_url = format!("{base}/c");
    web.routes[0].2.push(c_url.clone());
    web.routes.push((
        c_url.clone(),
        "<html><body><p>Gamma text.</p></body></html>".to_string(),
        vec![],
    ));
    let mut req = request(1, 10, 1, 1, 4000, 3);
    req.max_child_candidates = 2;
    let result = web.run(&req, &[start_url.clone()]);
    let norms: Vec<&str> = result.sources.iter().map(|s| s.url.normalized.as_str()).collect();
    assert_eq!(
        norms,
        vec![start_url.as_str(), &format!("{base}/a") as &str, &format!("{base}/b") as &str]
    );
    assert!(!norms.contains(&c_url.as_str()));
    assert_eq!(web.select_calls, 0);
}

#[test]
fn crawl_stops_when_the_clock_budget_is_spent() {
    let mut web = FakeWeb::default_routes();
    let base = FakeWeb::base_url();
    let start_url = format!("{base}/start");
    let mut req = request(1, 10, 1, 1, 4000, 3);
    req.max_elapsed_ms = 0;
    let result = web.run(&req, &[start_url]);
    assert_eq!(result.sources.len(), 1);
}

#[test]
fn spider_respects_robots_txt_disallow() {
    let mut web = FakeWeb::default_routes();
    let base = FakeWeb::base_url();
    let start_url = format!("{base}/start");
    let disallowed_url = format!("{base}/a");
    let allowed_url = format!("{base}/b");
    web.blocked.push(disallowed_url.clone());
    let req = request(1, 2, 1, 2, 4000, 3);
    let result = web.run(&req, &[start_url.clone()]);
    let out = compose_markdown(&req, &result);
    assert!(out.contains(&start_url));
    assert!(out.contains(&allowed_url));
    assert!(!result
        .sources
        .iter()
        .any(|s| s.url.normalized == disallowed_url));
}

#[test]
fn duplicate_seeds_are_crawled_once() {
    let mut web = FakeWeb::default_routes();
    let base = FakeWeb::base_url();
    let start_url = format!("{base}/start");
    let req = request(1, 1, 1, 1, 4000, 3);
    let result = web.run(&req, &[start_url.clone(), start_url.clone()]);
    assert_eq!(result.sources.len(), 1);
    assert_eq!(result.sources[0].url.normalized, start_url);
    assert_eq!(web.select_calls, 0);
}
