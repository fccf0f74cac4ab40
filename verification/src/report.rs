//! The report composer: renders the crawl result into a bounded markdown
//! report — query, findings with excerpts, the source list, and an advisory
//! note when the crawl fell short of `min_sources` — hard-truncated to the
//! request's character budget.

use vstd::prelude::*;
use vstd::string::StringExecFns;

use crate::spider::{CrawlResult, SourceModel, UserRequest};
use crate::text::{clip_chars, escape_md_inline, escape_md_spec, truncate_to_char_limit};
use crate::trust::tier_str_spec;

verus! {

/// The findings lines of one source: its tier and escaped URL, and an
/// indented escaped excerpt when there is one.
pub open spec fn finding_lines(s: SourceModel) -> Seq<char> {
    "- ["@ + tier_str_spec(s.trust_tier) + "] "@ + escape_md_spec(s.url.normalized) + "\n"@ + (
    if s.excerpt.len() > 0 {
        "  - "@ + escape_md_spec(s.excerpt) + "\n"@
    } else {
        Seq::empty()
    })
}

/// The findings lines of all sources, in order.
pub open spec fn findings_items(ss: Seq<SourceModel>) -> Seq<char>
    decreases ss.len(),
{
    if ss.len() == 0 {
        Seq::empty()
    } else {
        findings_items(ss.drop_last()) + finding_lines(ss.last())
    }
}

/// The source-list line of one source: tier and unescaped URL.
pub open spec fn source_line(s: SourceModel) -> Seq<char> {
    "- ["@ + tier_str_spec(s.trust_tier) + "] "@ + s.url.normalized + "\n"@
}

/// The source-list lines of all sources, in order.
pub open spec fn sources_items(ss: Seq<SourceModel>) -> Seq<char>
    decreases ss.len(),
{
    if ss.len() == 0 {
        Seq::empty()
    } else {
        sources_items(ss.drop_last()) + source_line(ss.last())
    }
}

/// The full rendered report before truncation: the query, a findings section
/// (with a placeholder when no source was collected), the source list, and —
/// only when fewer than `min_sources` sources exist — an advisory note.
pub open spec fn report_spec(req: crate::spider::ReqModel, ss: Seq<SourceModel>) -> Seq<char> {
    "# Spider Result\n\n"@ + "## Query\n\n"@ + "- "@ + escape_md_spec(req.query) + "\n"@ + "\n"@
        + "## Findings\n\n"@ + (if ss.len() == 0 {
        "- No sources collected.\n"@
    } else {
        findings_items(ss)
    }) + "\n"@ + "## Sources\n\n"@ + sources_items(ss) + (if ss.len() < req.min_sources {
        "\n"@ + "## Notes\n\n"@ + "- `min_sources` \u{3092}\u{6e80}\u{305f}\u{305b}\u{306a}\u{304b}\u{3063}\u{305f}\u{3002}\n"@
            + "- \u{53ce}\u{96c6}\u{5236}\u{7d04}\u{ff08}`max_pages` / `max_depth` / `max_elapsed`\u{ff09}\u{3092}\u{898b}\u{76f4}\u{3059}\u{3002}\n"@
    } else {
        Seq::empty()
    })
}

/// Renders the report and hard-truncates it to `max_chars` characters; a zero
/// budget yields the empty string, and the cut makes no attempt to preserve
/// structure.
pub fn compose_markdown(request: &UserRequest, result: &CrawlResult) -> (r: String)
    ensures
        r@ == clip_chars(report_spec(request@, result@), request@.max_chars),
        r@.len() <= request@.max_chars,
{
    let mut out = String::new();
    out.append("# Spider Result\n\n");
    out.append("## Query\n\n");
    out.append("- ");
    let eq = escape_md_inline(request.query.as_str());
    out.append(eq.as_str());
    out.append("\n");
    out.append("\n");
    out.append("## Findings\n\n");
    let n: usize = result.sources.len();
    let ghost ss = result@;
    if n == 0 {
        out.append("- No sources collected.\n");
    } else {
        let ghost base = out@;
        let mut i: usize = 0;
        proof {
            assert(out@ =~= base + findings_items(ss.take(0)));
        }
        while i < n
            invariant
                n == ss.len(),
                ss == result@,
                i <= n,
                out@ == base + findings_items(ss.take(i as int)),
            decreases n - i,
        {
            proof {
                assert(ss.take(i + 1).drop_last() =~= ss.take(i as int));
                assert(ss.take(i + 1).last() == ss[i as int]);
            }
            let s = &result.sources[i];
            out.append("- [");
            out.append(s.trust_tier.as_str());
            out.append("] ");
            let eu = escape_md_inline(s.url.normalized.as_str());
            out.append(eu.as_str());
            out.append("\n");
            if !s.excerpt.as_str().is_empty() {
                out.append("  - ");
                let ee = escape_md_inline(s.excerpt.as_str());
                out.append(ee.as_str());
                out.append("\n");
            }
            proof {
                assert(out@ =~= base + findings_items(ss.take(i + 1)));
            }
            i = i + 1;
        }
        proof {
            assert(ss.take(n as int) =~= ss);
        }
    }
    out.append("\n");
    out.append("## Sources\n\n");
    let ghost base2 = out@;
    let mut i: usize = 0;
    proof {
        assert(out@ =~= base2 + sources_items(ss.take(0)));
    }
    while i < n
        invariant
            n == ss.len(),
            ss == result@,
            i <= n,
            out@ == base2 + sources_items(ss.take(i as int)),
        decreases n - i,
    {
        proof {
            assert(ss.take(i + 1).drop_last() =~= ss.take(i as int));
            assert(ss.take(i + 1).last() == ss[i as int]);
        }
        let s = &result.sources[i];
        out.append("- [");
        out.append(s.trust_tier.as_str());
        out.append("] ");
        out.append(s.url.normalized.as_str());
        out.append("\n");
        proof {
            assert(out@ =~= base2 + sources_items(ss.take(i + 1)));
        }
        i = i + 1;
    }
    proof {
        assert(ss.take(n as int) =~= ss);
    }
    if n < request.min_sources {
        out.append("\n");
        out.append("## Notes\n\n");
        out.append(
            "- `min_sources` \u{3092}\u{6e80}\u{305f}\u{305b}\u{306a}\u{304b}\u{3063}\u{305f}\u{3002}\n",
        );
        out.append(
            "- \u{53ce}\u{96c6}\u{5236}\u{7d04}\u{ff08}`max_pages` / `max_depth` / `max_elapsed`\u{ff09}\u{3092}\u{898b}\u{76f4}\u{3059}\u{3002}\n",
        );
    }
    proof {
        assert(out@ =~= report_spec(request@, result@));
    }
    truncate_to_char_limit(out, request.max_chars)
}

} // verus!
