//! What the reports count and select: verdict totals, the results of one verdict,
//! and the exit status a scan ends with.
use vstd::prelude::*;
use crate::model::{final_verdict_of, AIModel, AIVerdict, ResultModel, ScanResult, Verdict};
use crate::text::{
    byte_truncated, copy_str, cuts_cleanly, decimal, decimal_string, str_eq, truncate, views,
};

verus! {

/// Renders scan results in one of the formats `text`, `json` or `sarif`.
pub struct Reporter {
    pub format: String,
}

/// The formats a report can take.
#[derive(Debug, Clone, Copy, PartialEq, Eq, Structural)]
pub enum ReportFormat {
    Json,
    Sarif,
    Text,
}

/// The format a name selects: `json` and `sarif` exactly; any other name gives text.
pub open spec fn format_named(name: Seq<char>) -> ReportFormat {
    if name == "json"@ {
        ReportFormat::Json
    } else if name == "sarif"@ {
        ReportFormat::Sarif
    } else {
        ReportFormat::Text
    }
}

impl Reporter {
    pub fn new(format: &str) -> (r: Reporter)
        ensures
            r.format@ == format@,
    {
        Reporter { format: copy_str(format) }
    }

    /// The format this reporter renders.
    pub fn report_format(&self) -> (f: ReportFormat)
        ensures
            f == format_named(self.format@),
    {
        if str_eq(self.format.as_str(), "json") {
            ReportFormat::Json
        } else if str_eq(self.format.as_str(), "sarif") {
            ReportFormat::Sarif
        } else {
            ReportFormat::Text
        }
    }
}

pub open spec fn result_views(rs: Seq<ScanResult>) -> Seq<ResultModel> {
    rs.map_values(|r: ScanResult| r@)
}

/// How many of the results have final verdict `v`.
pub open spec fn count_verdict(rs: Seq<ResultModel>, v: Verdict) -> nat
    decreases rs.len(),
{
    if rs.len() == 0 {
        0
    } else {
        count_verdict(rs.drop_last(), v) + if final_verdict_of(rs.last()) == v {
            1nat
        } else {
            0nat
        }
    }
}

/// The totals a report shows.
pub struct SummaryCounts {
    pub total: usize,
    pub clean: usize,
    pub suspicious: usize,
    pub malicious: usize,
}

pub proof fn lemma_counts_sum(rs: Seq<ResultModel>)
    ensures
        count_verdict(rs, Verdict::Clean) + count_verdict(rs, Verdict::Suspicious) + count_verdict(
            rs,
            Verdict::Malicious,
        ) == rs.len(),
    decreases rs.len(),
{
    if rs.len() > 0 {
        lemma_counts_sum(rs.drop_last());
    }
}

/// The number of results, and how many have each final verdict.
pub fn summary_counts(results: &Vec<ScanResult>) -> (c: SummaryCounts)
    ensures
        c.total == results@.len(),
        c.clean == count_verdict(result_views(results@), Verdict::Clean),
        c.suspicious == count_verdict(result_views(results@), Verdict::Suspicious),
        c.malicious == count_verdict(result_views(results@), Verdict::Malicious),
{
    let ghost rv = result_views(results@);
    let mut c = SummaryCounts { total: results.len(), clean: 0, suspicious: 0, malicious: 0 };
    let mut i: usize = 0;
    while i < results.len()
        invariant
            i <= results@.len(),
            rv == result_views(results@),
            c.total == results@.len(),
            c.clean == count_verdict(rv.take(i as int), Verdict::Clean),
            c.suspicious == count_verdict(rv.take(i as int), Verdict::Suspicious),
            c.malicious == count_verdict(rv.take(i as int), Verdict::Malicious),
        decreases results@.len() - i,
    {
        proof {
            assert(rv.take(i + 1).drop_last() =~= rv.take(i as int));
            assert(rv.take(i + 1).last() == results@[i as int]@);
            lemma_counts_sum(rv.take(i as int));
        }
        match results[i].final_verdict() {
            Verdict::Clean => {
                c.clean = c.clean + 1;
            },
            Verdict::Suspicious => {
                c.suspicious = c.suspicious + 1;
            },
            Verdict::Malicious => {
                c.malicious = c.malicious + 1;
            },
        }
        i = i + 1;
    }
    assert(rv.take(results@.len() as int) =~= rv);
    c
}

/// The results whose final verdict satisfies `keep`, in order.
pub open spec fn select(rs: Seq<ResultModel>, keep: spec_fn(Verdict) -> bool) -> Seq<ResultModel>
    decreases rs.len(),
{
    if rs.len() == 0 {
        Seq::empty()
    } else {
        let r = select(rs.drop_last(), keep);
        if keep(final_verdict_of(rs.last())) {
            r.push(rs.last())
        } else {
            r
        }
    }
}

pub open spec fn is_level(v: Verdict) -> spec_fn(Verdict) -> bool {
    |w: Verdict| w == v
}

pub open spec fn not_clean() -> spec_fn(Verdict) -> bool {
    |w: Verdict| w != Verdict::Clean
}

/// Copies of the results with final verdict `level`, or (without a level) of every
/// result that is not clean.
pub fn select_results(results: &Vec<ScanResult>, level: Option<Verdict>) -> (r: Vec<ScanResult>)
    ensures
        result_views(r@) == select(
            result_views(results@),
            match level {
                Some(v) => is_level(v),
                None => not_clean(),
            },
        ),
{
    let ghost keep = match level {
        Some(v) => is_level(v),
        None => not_clean(),
    };
    let ghost rv = result_views(results@);
    let mut out: Vec<ScanResult> = Vec::new();
    let mut i: usize = 0;
    assert(result_views(out@) =~= Seq::<ResultModel>::empty());
    while i < results.len()
        invariant
            i <= results@.len(),
            rv == result_views(results@),
            keep == (match level {
                Some(v) => is_level(v),
                None => not_clean(),
            }),
            result_views(out@) == select(rv.take(i as int), keep),
        decreases results@.len() - i,
    {
        proof {
            assert(rv.take(i + 1).drop_last() =~= rv.take(i as int));
            assert(rv.take(i + 1).last() == results@[i as int]@);
        }
        let v = results[i].final_verdict();
        let wanted = match level {
            Some(l) => v == l,
            None => v != Verdict::Clean,
        };
        if wanted {
            let ghost before = result_views(out@);
            out.push(results[i].copy());
            assert(result_views(out@) =~= before.push(results@[i as int]@));
        }
        i = i + 1;
    }
    assert(rv.take(results@.len() as int) =~= rv);
    out
}

/// The results that are not clean (what a report lists).
pub fn non_clean(results: &Vec<ScanResult>) -> (r: Vec<ScanResult>)
    ensures
        result_views(r@) == select(result_views(results@), not_clean()),
{
    select_results(results, None)
}

/// The exit status of a scan: 2 when a result is malicious, else 1 when one is
/// suspicious, else 0.
pub open spec fn exit_status_of(rs: Seq<ResultModel>) -> u8 {
    if count_verdict(rs, Verdict::Malicious) > 0 {
        2
    } else if count_verdict(rs, Verdict::Suspicious) > 0 {
        1
    } else {
        0
    }
}

pub fn exit_status(results: &Vec<ScanResult>) -> (code: u8)
    ensures
        code == exit_status_of(result_views(results@)),
{
    let c = summary_counts(results);
    if c.malicious > 0 {
        2
    } else if c.suspicious > 0 {
        1
    } else {
        0
    }
}

proof fn lemma_count_positive(rs: Seq<ResultModel>, v: Verdict, i: int)
    requires
        0 <= i < rs.len(),
        final_verdict_of(rs[i]) == v,
    ensures
        count_verdict(rs, v) > 0,
    decreases rs.len(),
{
    if i < rs.len() - 1 {
        assert(rs.drop_last()[i] == rs[i]);
        lemma_count_positive(rs.drop_last(), v, i);
    }
}

proof fn lemma_count_zero(rs: Seq<ResultModel>, v: Verdict)
    requires
        forall|i: int| 0 <= i < rs.len() ==> final_verdict_of(#[trigger] rs[i]) != v,
    ensures
        count_verdict(rs, v) == 0,
    decreases rs.len(),
{
    if rs.len() > 0 {
        assert forall|i: int| 0 <= i < rs.drop_last().len() implies final_verdict_of(
            #[trigger] rs.drop_last()[i],
        ) != v by {
            assert(rs.drop_last()[i] == rs[i]);
        }
        lemma_count_zero(rs.drop_last(), v);
    }
}

/// The exit status is the worst final verdict among the results: 2 exactly when one
/// is malicious, 0 exactly when all are clean.
pub proof fn law_exit_status_is_worst_verdict(rs: Seq<ResultModel>)
    ensures
        exit_status_of(rs) == 2 <==> exists|i: int|
            0 <= i < rs.len() && final_verdict_of(#[trigger] rs[i]) == Verdict::Malicious,
        exit_status_of(rs) == 0 <==> forall|i: int|
            0 <= i < rs.len() ==> final_verdict_of(#[trigger] rs[i]) == Verdict::Clean,
{
    if exists|i: int| 0 <= i < rs.len() && final_verdict_of(#[trigger] rs[i]) == Verdict::Malicious {
        let i = choose|i: int| 0 <= i < rs.len() && final_verdict_of(#[trigger] rs[i]) == Verdict::Malicious;
        lemma_count_positive(rs, Verdict::Malicious, i);
    } else {
        lemma_count_zero(rs, Verdict::Malicious);
    }
    if exists|i: int| 0 <= i < rs.len() && final_verdict_of(#[trigger] rs[i]) == Verdict::Suspicious {
        let i = choose|i: int| 0 <= i < rs.len() && final_verdict_of(#[trigger] rs[i]) == Verdict::Suspicious;
        lemma_count_positive(rs, Verdict::Suspicious, i);
    } else {
        lemma_count_zero(rs, Verdict::Suspicious);
    }
}

/// The counts of the three verdicts add up to the number of results.
pub proof fn law_counts_add_up(rs: Seq<ResultModel>)
    ensures
        count_verdict(rs, Verdict::Clean) + count_verdict(rs, Verdict::Suspicious) + count_verdict(
            rs,
            Verdict::Malicious,
        ) == rs.len(),
{
    lemma_counts_sum(rs);
}

// ---------------------------------------------------------------------------
// The text report.
/// The decimal rendering of an integer, with a minus sign when it is negative.
pub open spec fn signed_decimal(i: int) -> Seq<char> {
    if i < 0 {
        "-"@ + decimal((-i) as nat)
    } else {
        decimal(i as nat)
    }
}

fn signed_decimal_string(i: i32) -> (r: String)
    ensures
        r@ == signed_decimal(i as int),
{
    if i < 0 {
        let m: i64 = -(i as i64);
        let digits = decimal_string(m as u64);
        crate::text::concat2("-", digits.as_str())
    } else {
        decimal_string(i as u64)
    }
}

/// The name of a verdict in capitals, as the text report heads a result.
pub open spec fn upper_name(v: Verdict) -> Seq<char> {
    match v {
        Verdict::Clean => "CLEAN"@,
        Verdict::Suspicious => "SUSPICIOUS"@,
        Verdict::Malicious => "MALICIOUS"@,
    }
}

fn upper_name_str(v: Verdict) -> (r: &'static str)
    ensures
        r@ == upper_name(v),
{
    match v {
        Verdict::Clean => "CLEAN",
        Verdict::Suspicious => "SUSPICIOUS",
        Verdict::Malicious => "MALICIOUS",
    }
}

/// The first five reasons at most.
pub open spec fn first_five(rs: Seq<Seq<char>>) -> Seq<Seq<char>> {
    if rs.len() <= 5 {
        rs
    } else {
        rs.take(5)
    }
}

/// One bulleted line per reason.
pub open spec fn bullet_lines(rs: Seq<Seq<char>>) -> Seq<char>
    decreases rs.len(),
{
    if rs.len() == 0 {
        Seq::empty()
    } else {
        bullet_lines(rs.drop_last()) + "  • "@ + rs.last() + "\n"@
    }
}

/// The line about the AI opinion: its error, or its threat type, the confidence
/// as the caller rendered it, and its reasoning cut to 200 bytes.
pub open spec fn ai_lines(ai: Option<AIModel>, conf: Seq<char>) -> Seq<char> {
    match ai {
        None => Seq::empty(),
        Some(a) => if a.error.len() > 0 {
            "  AI error: "@ + a.error + "\n"@
        } else {
            "  AI ("@ + a.threat_type + ", conf="@ + conf + "): "@ + byte_truncated(a.reasoning, 200)
                + "\n"@
        },
    }
}

/// The lines of the text report for one result.
pub open spec fn result_block(r: ResultModel, conf: Seq<char>) -> Seq<char> {
    "["@ + upper_name(final_verdict_of(r)) + "] "@ + r.features.path + "\n  Score: "@
        + signed_decimal(r.heuristic.score) + "/100 | SHA256: "@ + byte_truncated(r.features.sha256, 16)
        + "...\n"@ + bullet_lines(first_five(r.heuristic.reasons)) + ai_lines(r.ai, conf) + "\n"@
}

/// The blocks of the results, in order; `confs[i]` is the rendered AI confidence
/// of result `i`.
pub open spec fn result_blocks(rs: Seq<ResultModel>, confs: Seq<Seq<char>>) -> Seq<char>
    decreases rs.len(),
{
    if rs.len() == 0 {
        Seq::empty()
    } else {
        result_blocks(rs.drop_last(), confs) + result_block(rs.last(), confs[rs.len() - 1])
    }
}

/// The head of the text report: the target, how many files were scanned and the
/// count of each final verdict.
pub open spec fn report_header(target: Seq<char>, all: Seq<ResultModel>) -> Seq<char> {
    "\nMalScan Report — "@ + target + "\nScanned: "@ + decimal(all.len()) + " file(s)\nSummary: "@
        + decimal(count_verdict(all, Verdict::Clean)) + " clean, "@ + decimal(
        count_verdict(all, Verdict::Suspicious),
    ) + " suspicious, "@ + decimal(count_verdict(all, Verdict::Malicious)) + " malicious\n\n"@
}

/// The text report on `filtered`, with totals over `all`.
pub open spec fn text_report(
    filtered: Seq<ResultModel>,
    all: Seq<ResultModel>,
    target: Seq<char>,
    confs: Seq<Seq<char>>,
) -> Seq<char> {
    report_header(target, all) + result_blocks(filtered, confs)
}

/// What the text report cuts, it cuts between characters: the first 16 bytes of
/// each hash and the first 200 of each AI reasoning that is shown.
pub open spec fn cuts_are_clean(rs: Seq<ResultModel>) -> bool {
    forall|i: int|
        0 <= i < rs.len() ==> {
            &&& cuts_cleanly(#[trigger] rs[i].features.sha256, 16)
            &&& shown_reasoning_cuts_cleanly(rs[i].ai)
        }
}

/// An AI opinion shows its reasoning only when it has no error; that reasoning is
/// cut at 200 bytes.
pub open spec fn shown_reasoning_cuts_cleanly(ai: Option<AIModel>) -> bool {
    match ai {
        Some(a) => a.error.len() > 0 || cuts_cleanly(a.reasoning, 200),
        None => true,
    }
}

fn bullet_text(reasons: &Vec<String>) -> (r: String)
    ensures
        r@ == bullet_lines(first_five(views(reasons@))),
{
    let n = if reasons.len() <= 5 {
        reasons.len()
    } else {
        5
    };
    let ghost rs = first_five(views(reasons@));
    let mut out = String::new();
    let mut i: usize = 0;
    assert(rs.take(0) =~= Seq::<Seq<char>>::empty());
    while i < n
        invariant
            i <= n,
            n == rs.len(),
            n <= reasons@.len(),
            rs == first_five(views(reasons@)),
            out@ == bullet_lines(rs.take(i as int)),
        decreases n - i,
    {
        assert(rs.take(i + 1).drop_last() =~= rs.take(i as int));
        assert(rs[i as int] == reasons@[i as int]@);
        out.append("  • ");
        out.append(reasons[i].as_str());
        out.append("\n");
        i = i + 1;
    }
    assert(rs.take(n as int) =~= rs);
    out
}

fn ai_text(ai: &Option<AIVerdict>, conf: &str) -> (r: String)
    requires
        shown_reasoning_cuts_cleanly(crate::model::ai_view(*ai)),
    ensures
        r@ == ai_lines(crate::model::ai_view(*ai), conf@),
{
    match ai {
        None => String::new(),
        Some(a) => {
            let mut out = String::new();
            if !a.error.as_str().is_empty() {
                out.append("  AI error: ");
                out.append(a.error.as_str());
                out.append("\n");
            } else {
                out.append("  AI (");
                out.append(a.threat_type.as_str());
                out.append(", conf=");
                out.append(conf);
                out.append("): ");
                let cut = truncate(a.reasoning.as_str(), 200);
                out.append(cut.as_str());
                out.append("\n");
            }
            out
        },
    }
}

fn result_text(r: &ScanResult, conf: &str) -> (t: String)
    requires
        cuts_cleanly(r.features.sha256@, 16),
        shown_reasoning_cuts_cleanly(crate::model::ai_view(r.ai_verdict)),
    ensures
        t@ == result_block(r@, conf@),
{
    let mut out = String::new();
    out.append("[");
    out.append(upper_name_str(r.final_verdict()));
    out.append("] ");
    out.append(r.features.path.as_str());
    out.append("\n  Score: ");
    let score = signed_decimal_string(r.heuristic.score);
    out.append(score.as_str());
    out.append("/100 | SHA256: ");
    let sha = truncate(r.features.sha256.as_str(), 16);
    out.append(sha.as_str());
    out.append("...\n");
    let bullets = bullet_text(&r.heuristic.reasons);
    out.append(bullets.as_str());
    let ai = ai_text(&r.ai_verdict, conf);
    out.append(ai.as_str());
    out.append("\n");
    out
}

/// The text report: a head with the totals over `all`, then one block per result
/// of `filtered`. `confidences[i]` is the AI confidence of `filtered[i]` as it is
/// to be shown.
pub fn render_text(
    filtered: &Vec<ScanResult>,
    all: &Vec<ScanResult>,
    target: &str,
    confidences: &Vec<String>,
) -> (r: String)
    requires
        confidences@.len() == filtered@.len(),
        cuts_are_clean(result_views(filtered@)),
    ensures
        r@ == text_report(result_views(filtered@), result_views(all@), target@, views(confidences@)),
{
    let c = summary_counts(all);
    let mut out = String::new();
    out.append("\nMalScan Report — ");
    out.append(target);
    out.append("\nScanned: ");
    out.append(decimal_string(all.len() as u64).as_str());
    out.append(" file(s)\nSummary: ");
    out.append(decimal_string(c.clean as u64).as_str());
    out.append(" clean, ");
    out.append(decimal_string(c.suspicious as u64).as_str());
    out.append(" suspicious, ");
    out.append(decimal_string(c.malicious as u64).as_str());
    out.append(" malicious\n\n");
    let ghost fv = result_views(filtered@);
    let ghost cv = views(confidences@);
    let ghost head = out@;
    assert(head == report_header(target@, result_views(all@)));
    let mut i: usize = 0;
    assert(fv.take(0) =~= Seq::<ResultModel>::empty());
    while i < filtered.len()
        invariant
            i <= filtered@.len(),
            fv == result_views(filtered@),
            cv == views(confidences@),
            confidences@.len() == filtered@.len(),
            cuts_are_clean(fv),
            out@ == head + result_blocks(fv.take(i as int), cv),
        decreases filtered@.len() - i,
    {
        assert(fv.take(i + 1).drop_last() =~= fv.take(i as int));
        assert(fv[i as int] == filtered@[i as int]@);
        assert(cuts_cleanly(fv[i as int].features.sha256, 16));
        let block = result_text(&filtered[i], confidences[i].as_str());
        assert(cv[i as int] == confidences@[i as int]@);
        out.append(block.as_str());
        i = i + 1;
    }
    assert(fv.take(filtered@.len() as int) =~= fv);
    out
}

} // verus!
