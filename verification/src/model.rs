//! The values a scan produces: verdicts, the features of a file, the heuristic
//! score and the result that ties them together.
use vstd::prelude::*;
use crate::text::{copy_strings, str_eq, to_lower, unicode_lower, views};

verus! {

/// Overall classification of a scanned file.
#[derive(Debug, Clone, Copy, PartialEq, Eq, Structural, Hash)]
pub enum Verdict {
    Clean,
    Suspicious,
    Malicious,
}

impl Verdict {
    /// The lowercase name of a verdict, as reports write it.
    pub open spec fn spec_name(self) -> Seq<char> {
        match self {
            Verdict::Clean => "clean"@,
            Verdict::Suspicious => "suspicious"@,
            Verdict::Malicious => "malicious"@,
        }
    }

    /// The lowercase name of the verdict.
    pub fn as_str(&self) -> (r: &'static str)
        ensures
            r@ == self.spec_name(),
    {
        match self {
            Verdict::Clean => "clean",
            Verdict::Suspicious => "suspicious",
            Verdict::Malicious => "malicious",
        }
    }

    /// How grave a verdict is, from 0 for clean to 2 for malicious.
    pub open spec fn rank(self) -> int {
        match self {
            Verdict::Clean => 0,
            Verdict::Suspicious => 1,
            Verdict::Malicious => 2,
        }
    }
}

/// When to ask the AI service for a second opinion.
#[derive(Debug, Clone, Copy, PartialEq, Eq, Structural)]
pub enum AIMode {
    Auto,
    Always,
    Off,
}

/// The mode a command-line word names: `always` and `off` in any case, anything else `Auto`.
pub open spec fn ai_mode_of(s: Seq<char>) -> AIMode {
    if unicode_lower(s) == "always"@ {
        AIMode::Always
    } else if unicode_lower(s) == "off"@ {
        AIMode::Off
    } else {
        AIMode::Auto
    }
}

impl AIMode {
    pub fn parse(s: &str) -> (m: AIMode)
        ensures
            m == ai_mode_of(s@),
    {
        let l = to_lower(s);
        if str_eq(l.as_str(), "always") {
            AIMode::Always
        } else if str_eq(l.as_str(), "off") {
            AIMode::Off
        } else {
            AIMode::Auto
        }
    }
}

/// Web addresses and IPv4 addresses found in a file (an empty list: none found).
#[derive(Debug)]
pub struct Iocs {
    pub urls: Vec<String>,
    pub ips: Vec<String>,
}

/// What the scanner learned about one file.
#[derive(Debug)]
pub struct FileFeatures {
    pub path: String,
    pub size: u64,
    pub md5: String,
    pub sha256: String,
    pub file_type: String,
    pub mime_hint: String,
    pub strings: Vec<String>,
    pub iocs: Iocs,
    pub signature_hits: Vec<String>,
    pub disguised_ext: String,
    pub handler_name: String,
    pub allowed_by_htaccess: bool,
    pub errors: Vec<String>,
}

/// The content of [`FileFeatures`].
#[verifier::ext_equal]
pub struct FeaturesModel {
    pub path: Seq<char>,
    pub size: u64,
    pub md5: Seq<char>,
    pub sha256: Seq<char>,
    pub file_type: Seq<char>,
    pub mime_hint: Seq<char>,
    pub strings: Seq<Seq<char>>,
    pub urls: Seq<Seq<char>>,
    pub ips: Seq<Seq<char>>,
    pub signature_hits: Seq<Seq<char>>,
    pub disguised_ext: Seq<char>,
    pub handler_name: Seq<char>,
    pub allowed_by_htaccess: bool,
    pub errors: Seq<Seq<char>>,
}

impl View for FileFeatures {
    type V = FeaturesModel;

    open spec fn view(&self) -> FeaturesModel {
        FeaturesModel {
            path: self.path@,
            size: self.size,
            md5: self.md5@,
            sha256: self.sha256@,
            file_type: self.file_type@,
            mime_hint: self.mime_hint@,
            strings: views(self.strings@),
            urls: views(self.iocs.urls@),
            ips: views(self.iocs.ips@),
            signature_hits: views(self.signature_hits@),
            disguised_ext: self.disguised_ext@,
            handler_name: self.handler_name@,
            allowed_by_htaccess: self.allowed_by_htaccess,
            errors: views(self.errors@),
        }
    }
}

/// Features that know nothing but a path, a size and some errors.
pub open spec fn blank_features(path: Seq<char>, size: u64, errors: Seq<Seq<char>>) -> FeaturesModel {
    FeaturesModel {
        path,
        size,
        md5: Seq::empty(),
        sha256: Seq::empty(),
        file_type: Seq::empty(),
        mime_hint: Seq::empty(),
        strings: Seq::empty(),
        urls: Seq::empty(),
        ips: Seq::empty(),
        signature_hits: Seq::empty(),
        disguised_ext: Seq::empty(),
        handler_name: Seq::empty(),
        allowed_by_htaccess: false,
        errors,
    }
}

impl FileFeatures {
    /// Features that know nothing but the path (`FileFeatures { path, ..Default::default() }`).
    pub fn blank(path: String) -> (f: FileFeatures)
        ensures
            f@ == blank_features(path@, 0, Seq::empty()),
    {
        let f = FileFeatures {
            path,
            size: 0,
            md5: String::new(),
            sha256: String::new(),
            file_type: String::new(),
            mime_hint: String::new(),
            strings: Vec::new(),
            iocs: Iocs { urls: Vec::new(), ips: Vec::new() },
            signature_hits: Vec::new(),
            disguised_ext: String::new(),
            handler_name: String::new(),
            allowed_by_htaccess: false,
            errors: Vec::new(),
        };
        assert(f@ =~= blank_features(path@, 0, Seq::empty()));
        f
    }

    /// The features of a file that could not be read: its path, its size and the
    /// error message.
    pub fn with_error(path: String, size: u64, message: String) -> (f: FileFeatures)
        ensures
            f@ == blank_features(path@, size, seq![message@]),
    {
        let mut f = FileFeatures::blank(path);
        f.size = size;
        f.errors.push(message);
        assert(f@ =~= blank_features(path@, size, seq![message@]));
        f
    }

    /// A field-for-field copy.
    pub fn copy(&self) -> (r: FileFeatures)
        ensures
            r@ == self@,
    {
        let urls = copy_strings(&self.iocs.urls);
        let ips = copy_strings(&self.iocs.ips);
        FileFeatures {
            path: self.path.clone(),
            size: self.size,
            md5: self.md5.clone(),
            sha256: self.sha256.clone(),
            file_type: self.file_type.clone(),
            mime_hint: self.mime_hint.clone(),
            strings: copy_strings(&self.strings),
            iocs: Iocs { urls, ips },
            signature_hits: copy_strings(&self.signature_hits),
            disguised_ext: self.disguised_ext.clone(),
            handler_name: self.handler_name.clone(),
            allowed_by_htaccess: self.allowed_by_htaccess,
            errors: copy_strings(&self.errors),
        }
    }
}

/// The score of the heuristics, the reasons behind it, and whether to ask the AI service.
#[derive(Debug)]
pub struct HeuristicResult {
    pub score: i32,
    pub reasons: Vec<String>,
    pub escalate_to_ai: bool,
}

/// The content of a [`HeuristicResult`].
#[verifier::ext_equal]
pub struct HeuristicModel {
    pub score: int,
    pub reasons: Seq<Seq<char>>,
    pub escalate_to_ai: bool,
}

impl View for HeuristicResult {
    type V = HeuristicModel;

    open spec fn view(&self) -> HeuristicModel {
        HeuristicModel {
            score: self.score as int,
            reasons: views(self.reasons@),
            escalate_to_ai: self.escalate_to_ai,
        }
    }
}

/// The verdict a heuristic score gives: 70 and above malicious, 40 and above
/// suspicious, below that clean.
pub open spec fn verdict_for_score(score: int) -> Verdict {
    if score >= 70 {
        Verdict::Malicious
    } else if score >= 40 {
        Verdict::Suspicious
    } else {
        Verdict::Clean
    }
}

impl HeuristicResult {
    /// A zero score with no reasons (`HeuristicResult::default()`).
    pub fn empty() -> (r: HeuristicResult)
        ensures
            r@ == (HeuristicModel { score: 0, reasons: Seq::empty(), escalate_to_ai: false }),
    {
        let r = HeuristicResult { score: 0, reasons: Vec::new(), escalate_to_ai: false };
        assert(r@.reasons =~= Seq::empty());
        r
    }

    pub fn verdict(&self) -> (v: Verdict)
        ensures
            v == verdict_for_score(self.score as int),
    {
        if self.score >= 70 {
            Verdict::Malicious
        } else if self.score >= 40 {
            Verdict::Suspicious
        } else {
            Verdict::Clean
        }
    }

    /// A field-for-field copy.
    pub fn copy(&self) -> (r: HeuristicResult)
        ensures
            r@ == self@,
    {
        HeuristicResult {
            score: self.score,
            reasons: copy_strings(&self.reasons),
            escalate_to_ai: self.escalate_to_ai,
        }
    }
}

/// The answer of the AI service. Its confidence, a floating-point number, is kept
/// beside the result by the program that asks the service.
#[derive(Debug)]
pub struct AIVerdict {
    pub verdict: Verdict,
    pub threat_type: String,
    pub indicators: Vec<String>,
    pub reasoning: String,
    /// Empty unless the service could not be asked or its answer not read.
    pub error: String,
}

/// The content of an [`AIVerdict`].
#[verifier::ext_equal]
pub struct AIModel {
    pub verdict: Verdict,
    pub threat_type: Seq<char>,
    pub indicators: Seq<Seq<char>>,
    pub reasoning: Seq<char>,
    pub error: Seq<char>,
}

impl View for AIVerdict {
    type V = AIModel;

    open spec fn view(&self) -> AIModel {
        AIModel {
            verdict: self.verdict,
            threat_type: self.threat_type@,
            indicators: views(self.indicators@),
            reasoning: self.reasoning@,
            error: self.error@,
        }
    }
}

impl AIVerdict {
    /// A field-for-field copy.
    pub fn copy(&self) -> (r: AIVerdict)
        ensures
            r@ == self@,
    {
        AIVerdict {
            verdict: self.verdict,
            threat_type: self.threat_type.clone(),
            indicators: copy_strings(&self.indicators),
            reasoning: self.reasoning.clone(),
            error: self.error.clone(),
        }
    }
}

/// Everything known about one scanned file.
#[derive(Debug)]
pub struct ScanResult {
    pub features: FileFeatures,
    pub heuristic: HeuristicResult,
    pub ai_verdict: Option<AIVerdict>,
}

/// The content of a [`ScanResult`].
#[verifier::ext_equal]
pub struct ResultModel {
    pub features: FeaturesModel,
    pub heuristic: HeuristicModel,
    pub ai: Option<AIModel>,
}

pub open spec fn ai_view(a: Option<AIVerdict>) -> Option<AIModel> {
    match a {
        Some(v) => Some(v@),
        None => None,
    }
}

impl View for ScanResult {
    type V = ResultModel;

    open spec fn view(&self) -> ResultModel {
        ResultModel {
            features: self.features@,
            heuristic: self.heuristic@,
            ai: ai_view(self.ai_verdict),
        }
    }
}

/// The verdict a result ends with: that of the service's answer when it came without error, else the one its score gives.
pub open spec fn final_verdict_of(r: ResultModel) -> Verdict {
    match r.ai {
        Some(ai) => if ai.error.len() == 0 {
            ai.verdict
        } else {
            verdict_for_score(r.heuristic.score)
        },
        None => verdict_for_score(r.heuristic.score),
    }
}

fn copy_ai(a: &Option<AIVerdict>) -> (r: Option<AIVerdict>)
    ensures
        ai_view(r) == ai_view(*a),
{
    match a {
        Some(ai) => Some(ai.copy()),
        None => None,
    }
}

impl ScanResult {
    pub fn final_verdict(&self) -> (v: Verdict)
        ensures
            v == final_verdict_of(self@),
    {
        match &self.ai_verdict {
            Some(ai) => {
                if ai.error.as_str().is_empty() {
                    return ai.verdict;
                }
            },
            None => {},
        }
        self.heuristic.verdict()
    }

    /// The same result, reported for another path.
    pub fn clone_with_path(&self, path: String) -> (r: ScanResult)
        ensures
            r@ == (ResultModel { features: FeaturesModel { path: path@, ..self@.features }, ..self@ }),
    {
        let mut features = self.features.copy();
        features.path = path;
        ScanResult { features, heuristic: self.heuristic.copy(), ai_verdict: copy_ai(&self.ai_verdict) }
    }

    /// A field-for-field copy.
    pub fn copy(&self) -> (r: ScanResult)
        ensures
            r@ == self@,
    {
        ScanResult {
            features: self.features.copy(),
            heuristic: self.heuristic.copy(),
            ai_verdict: copy_ai(&self.ai_verdict),
        }
    }
}

/// A higher heuristic score never gives a milder verdict.
pub proof fn law_verdict_monotone(a: int, b: int)
    requires
        a <= b,
    ensures
        verdict_for_score(a).rank() <= verdict_for_score(b).rank(),
{
}

/// An AI answer without error decides the final verdict, whatever the score.
pub proof fn law_ai_answer_decides(r: ResultModel)
    requires
        r.ai matches Some(ai) && ai.error.len() == 0,
    ensures
        final_verdict_of(r) == r.ai->Some_0.verdict,
{
}


/// A score of 70 or more is malicious, from 40 to 69 suspicious, below 40 clean.
pub proof fn law_verdict_thresholds(score: int)
    ensures
        score >= 70 ==> verdict_for_score(score) == Verdict::Malicious,
        40 <= score < 70 ==> verdict_for_score(score) == Verdict::Suspicious,
        score < 40 ==> verdict_for_score(score) == Verdict::Clean,
{
}

} // verus!
