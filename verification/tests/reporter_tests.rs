use malscan::model::{AIVerdict, FileFeatures, HeuristicResult, ScanResult, Verdict};
use malscan::reporter::{
    exit_status, non_clean, render_text, select_results, summary_counts, ReportFormat, Reporter,
};

fn result(path: &str, score: i32, reasons: &[&str]) -> ScanResult {
    let mut f = FileFeatures::blank(path.to_string());
    f.sha256 = "0123456789abcdef0123".to_string();
    ScanResult {
        features: f,
        heuristic: HeuristicResult {
            score,
            reasons: reasons.iter().map(|r| r.to_string()).collect(),
            escalate_to_ai: false,
        },
        ai_verdict: None,
    }
}

fn ai(verdict: Verdict, reasoning: &str, error: &str) -> AIVerdict {
    AIVerdict {
        verdict,
        threat_type: "webshell".to_string(),
        indicators: vec![],
        reasoning: reasoning.to_string(),
        error: error.to_string(),
    }
}

#[test]
fn counts_and_exit_status() {
    let rs = vec![result("/a", 0, &[]), result("/b", 45, &[]), result("/c", 80, &[])];
    let c = summary_counts(&rs);
    assert_eq!((c.total, c.clean, c.suspicious, c.malicious), (3, 1, 1, 1));
    assert_eq!(exit_status(&rs), 2);
    let rs2 = vec![result("/a", 0, &[]), result("/b", 45, &[])];
    assert_eq!(exit_status(&rs2), 1);
    let rs3 = vec![result("/a", 10, &[])];
    assert_eq!(exit_status(&rs3), 0);
    assert_eq!(exit_status(&vec![]), 0);
}

#[test]
fn ai_answer_overrides_score_unless_it_failed() {
    let mut r = result("/a", 90, &[]);
    r.ai_verdict = Some(ai(Verdict::Clean, "fine", ""));
    assert_eq!(r.final_verdict(), Verdict::Clean);
    r.ai_verdict = Some(ai(Verdict::Clean, "", "timeout"));
    assert_eq!(r.final_verdict(), Verdict::Malicious);
}

#[test]
fn selection_by_verdict() {
    let rs = vec![result("/a", 0, &[]), result("/b", 45, &[]), result("/c", 80, &[])];
    let bad = non_clean(&rs);
    let paths: Vec<&str> = bad.iter().map(|r| r.features.path.as_str()).collect();
    assert_eq!(paths, vec!["/b", "/c"]);
    let mal = select_results(&rs, Some(Verdict::Malicious));
    assert_eq!(mal.len(), 1);
    assert_eq!(mal[0].features.path, "/c");
}

#[test]
fn report_formats() {
    assert_eq!(Reporter::new("json").report_format(), ReportFormat::Json);
    assert_eq!(Reporter::new("sarif").report_format(), ReportFormat::Sarif);
    assert_eq!(Reporter::new("text").report_format(), ReportFormat::Text);
    assert_eq!(Reporter::new("JSON").report_format(), ReportFormat::Text);
}

#[test]
fn text_report_layout() {
    let sus = result("/t/x.php", 50, &["[+50] php:obf_eval_chain_0"]);
    let all = vec![result("/t/y.php", 0, &[]), result("/t/x.php", 50, &["[+50] php:obf_eval_chain_0"])];
    let filtered = vec![sus];
    let out = render_text(&filtered, &all, "/t", &vec![String::new()]);
    assert_eq!(
        out,
        "\nMalScan Report — /t\nScanned: 2 file(s)\nSummary: 1 clean, 1 suspicious, 0 malicious\n\n[SUSPICIOUS] /t/x.php\n  Score: 50/100 | SHA256: 0123456789abcdef...\n  • [+50] php:obf_eval_chain_0\n\n"
    );
}

#[test]
fn text_report_ai_lines() {
    let mut r = result("/t/x.php", 95, &["a", "b", "c", "d", "e", "f"]);
    r.ai_verdict = Some(ai(Verdict::Malicious, &"r".repeat(250), ""));
    let mut e = result("/t/z.php", 45, &[]);
    e.ai_verdict = Some(ai(Verdict::Clean, "", "boom"));
    let filtered = vec![r, e];
    let out = render_text(&filtered, &filtered, "/t", &vec!["0.90".to_string(), String::new()]);
    let expected = format!(
        "\nMalScan Report — /t\nScanned: 2 file(s)\nSummary: 0 clean, 1 suspicious, 1 malicious\n\n[MALICIOUS] /t/x.php\n  Score: 95/100 | SHA256: 0123456789abcdef...\n  • a\n  • b\n  • c\n  • d\n  • e\n  AI (webshell, conf=0.90): {}\n\n[SUSPICIOUS] /t/z.php\n  Score: 45/100 | SHA256: 0123456789abcdef...\n  AI error: boom\n\n",
        "r".repeat(200)
    );
    assert_eq!(out, expected);
}

#[test]
fn short_hash_is_shown_whole() {
    let mut r = result("/t/x.php", -3, &[]);
    r.features.sha256 = "abc".to_string();
    let out = render_text(&vec![r], &vec![], "/t", &vec![String::new()]);
    assert!(out.contains("[CLEAN] /t/x.php\n  Score: -3/100 | SHA256: abc...\n"));
}
