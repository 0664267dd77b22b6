//! The readiness report: the score, the well-known file checks, and the
//! validation results for plugin, protocol and API manifests.

use vstd::prelude::*;

use crate::text::{spec_contains, spec_ends_with, spec_lower, spec_replace, spec_starts_with,
    spec_trim};

verus! {

/// Severity of an issue in a readiness report.
#[derive(PartialEq, Eq, Structural, Clone, Copy, Debug)]
pub enum IssueSeverity {
    Critical,
    High,
    Medium,
    Low,
}

/// How many points an issue of this severity deducts.
pub open spec fn spec_deduction(s: IssueSeverity) -> u32 {
    match s {
        IssueSeverity::Critical => 20,
        IssueSeverity::High => 10,
        IssueSeverity::Medium => 5,
        IssueSeverity::Low => 2,
    }
}

/// One issue found while checking readiness.
pub struct AiReadinessIssue {
    pub severity: IssueSeverity,
    pub category: String,
    pub message: String,
    pub reference: Option<String>,
}

/// A check that has not probed anything yet: an empty path and no outcome.
pub open spec fn file_check_blank(fc: FileCheck) -> bool {
    &&& fc.path@.len() == 0
    &&& fc.status_code is None
    &&& fc.found == false
    &&& fc.valid == false
    &&& fc.error is None
    &&& fc.content is None
}

/// Status of one well-known file.
pub struct FileCheck {
    pub path: String,
    pub status_code: Option<u16>,
    pub found: bool,
    pub valid: bool,
    pub error: Option<String>,
    pub content: Option<String>,
}

impl FileCheck {
    /// A check for one path, nothing probed yet.
    pub fn new(path: String) -> (r: FileCheck)
        ensures
            r.path@ == path@,
            r.status_code is None,
            r.found == false,
            r.valid == false,
            r.error is None,
            r.content is None,
    {
        FileCheck { path, status_code: None, found: false, valid: false, error: None, content: None }
    }
}

/// The checks run against the well-known directory.
pub struct WellKnownChecks {
    pub ai_plugin: FileCheck,
    pub mcp: FileCheck,
    pub openid_config: FileCheck,
    pub security_txt: FileCheck,
    pub apple_app_site_association: FileCheck,
    pub assetlinks: FileCheck,
}

/// The whole readiness assessment of one site.
pub struct AiReadinessReport {
    pub url: String,
    pub score: u8,
    pub well_known: WellKnownChecks,
    pub strengths: Vec<String>,
    pub issues: Vec<AiReadinessIssue>,
    pub recommendations: Vec<String>,
}

/// The score left after deducting the first `n` issues from 100, never
/// falling below zero.
pub open spec fn spec_score(issues: Seq<AiReadinessIssue>, n: int) -> u32
    decreases n,
{
    if n <= 0 || n > issues.len() {
        100
    } else {
        let prev = spec_score(issues, n - 1);
        let d = spec_deduction(issues[n - 1].severity);
        if prev >= d {
            (prev - d) as u32
        } else {
            0
        }
    }
}

impl AiReadinessReport {
    /// An empty report for one URL.
    pub fn new(url: String) -> (r: AiReadinessReport)
        ensures
            r.url@ == url@,
            r.score == 0,
            r.strengths@.len() == 0,
            r.issues@.len() == 0,
            r.recommendations@.len() == 0,
            file_check_blank(r.well_known.ai_plugin),
            file_check_blank(r.well_known.mcp),
            file_check_blank(r.well_known.openid_config),
            file_check_blank(r.well_known.security_txt),
            file_check_blank(r.well_known.apple_app_site_association),
            file_check_blank(r.well_known.assetlinks),
    {
        AiReadinessReport {
            url,
            score: 0,
            well_known: WellKnownChecks {
                ai_plugin: FileCheck::new(String::new()),
                mcp: FileCheck::new(String::new()),
                openid_config: FileCheck::new(String::new()),
                security_txt: FileCheck::new(String::new()),
                apple_app_site_association: FileCheck::new(String::new()),
                assetlinks: FileCheck::new(String::new()),
            },
            strengths: Vec::new(),
            issues: Vec::new(),
            recommendations: Vec::new(),
        }
    }

    /// Deduct points for every recorded issue, saturating at zero; nothing
    /// else changes.
    pub fn calculate_score(&mut self)
        ensures
            final(self).score == spec_score(old(self).issues@, old(self).issues@.len() as int),
            final(self).issues == old(self).issues,
            final(self).url == old(self).url,
            final(self).strengths == old(self).strengths,
            final(self).recommendations == old(self).recommendations,
            final(self).well_known == old(self).well_known,
    {
        let mut score: u32 = 100;
        let mut i: usize = 0;
        while i < self.issues.len()
            invariant
                i <= self.issues@.len(),
                *self == *old(self),
                score == spec_score(self.issues@, i as int),
                score <= 100,
            decreases self.issues@.len() - i,
        {
            let d: u32 = match self.issues[i].severity {
                IssueSeverity::Critical => 20,
                IssueSeverity::High => 10,
                IssueSeverity::Medium => 5,
                IssueSeverity::Low => 2,
            };
            if score >= d {
                score = score - d;
            } else {
                score = 0;
            }
            i = i + 1;
        }
        self.score = score as u8;
    }
}

// ---------------------------------------------------------------------------
// Format detection and small content checks.
// ---------------------------------------------------------------------------

/// Whether a specification document reads as YAML: the URL's extension
/// first, then the leading characters of the content, JSON when ambiguous.
pub open spec fn spec_is_yaml(url: Seq<char>, content: Seq<char>) -> bool {
    if spec_ends_with(url, ".yaml"@) || spec_ends_with(url, ".yml"@) {
        true
    } else if spec_ends_with(url, ".json"@) {
        false
    } else {
        let t = crate::text::spec_trim_start(content);
        if spec_starts_with(t, "openapi:"@) || spec_starts_with(t, "---"@) {
            true
        } else {
            false
        }
    }
}

pub fn is_yaml_format(url: &str, content: &str) -> (r: bool)
    ensures
        r == spec_is_yaml(url@, content@),
{
    let uc = crate::text::to_chars(url);
    if crate::text::ends_with_chars(uc.as_slice(), crate::text::to_chars(".yaml").as_slice()) {
        return true;
    }
    if crate::text::ends_with_chars(uc.as_slice(), crate::text::to_chars(".yml").as_slice()) {
        return true;
    }
    if crate::text::ends_with_chars(uc.as_slice(), crate::text::to_chars(".json").as_slice()) {
        return false;
    }
    let cc = crate::text::to_chars(content);
    let trimmed = trim_start_chars(cc.as_slice());
    if crate::text::starts_with_chars(
        trimmed.as_slice(),
        crate::text::to_chars("openapi:").as_slice(),
    ) {
        return true;
    }
    if crate::text::starts_with_chars(trimmed.as_slice(), crate::text::to_chars("---").as_slice()) {
        return true;
    }
    false
}

fn trim_start_chars(s: &[char]) -> (r: Vec<char>)
    ensures
        r@ == crate::text::spec_trim_start(s@),
{
    let mut start: usize = 0;
    proof {
        assert(s@.skip(0) =~= s@);
    }
    while start < s.len() && crate::text::is_space_exec(s[start])
        invariant
            start <= s@.len(),
            crate::text::spec_trim_start(s@) == crate::text::spec_trim_start(
                s@.skip(start as int),
            ),
        decreases s@.len() - start,
    {
        assert(s@.skip(start as int).drop_first() =~= s@.skip(start + 1));
        start = start + 1;
    }
    proof {
        assert(crate::text::spec_trim_start(s@) == s@.skip(start as int));
    }
    crate::text::sub_chars(s, start, s.len())
}

/// Text content is valid when something is left after trimming.
pub fn validate_text(content: &str) -> (r: bool)
    ensures
        r == (spec_trim(content@).len() != 0),
{
    let cc = crate::text::to_chars(content);
    let trimmed = crate::text::trim_chars(cc.as_slice());
    trimmed.len() != 0
}

// ---------------------------------------------------------------------------
// Sitemap URL categorisation and XML entity decoding.
// ---------------------------------------------------------------------------

/// The content category a URL falls in, by the first recognized path word.
pub open spec fn spec_categorize(url: Seq<char>) -> Seq<char> {
    let u = spec_lower(url);
    if spec_contains(u, "/product"@) || spec_contains(u, "/item"@) || spec_contains(u, "/shop"@) {
        "product"@
    } else if spec_contains(u, "/blog"@) || spec_contains(u, "/post"@) {
        "blog"@
    } else if spec_contains(u, "/article"@) || spec_contains(u, "/news"@) {
        "article"@
    } else if spec_contains(u, "/doc"@) || spec_contains(u, "/guide"@) || spec_contains(
        u,
        "/tutorial"@,
    ) {
        "documentation"@
    } else if spec_contains(u, "/video"@) || spec_contains(u, "/watch"@) {
        "video"@
    } else if spec_contains(u, "/image"@) || spec_contains(u, "/gallery"@) {
        "image"@
    } else if spec_contains(u, "/faq"@) || spec_contains(u, "/help"@) {
        "faq"@
    } else if spec_contains(u, "/about"@) || spec_contains(u, "/contact"@) || spec_contains(
        u,
        "/privacy"@,
    ) {
        "info"@
    } else {
        "page"@
    }
}

pub fn categorize_url(url: &str) -> (r: String)
    ensures
        r@ == spec_categorize(url@),
{
    let u = crate::text::lower_chars(crate::text::to_chars(url).as_slice());
    if contains_lit(u.as_slice(), "/product") || contains_lit(u.as_slice(), "/item")
        || contains_lit(u.as_slice(), "/shop") {
        return lit_string("product");
    }
    if contains_lit(u.as_slice(), "/blog") || contains_lit(u.as_slice(), "/post") {
        return lit_string("blog");
    }
    if contains_lit(u.as_slice(), "/article") || contains_lit(u.as_slice(), "/news") {
        return lit_string("article");
    }
    if contains_lit(u.as_slice(), "/doc") || contains_lit(u.as_slice(), "/guide") || contains_lit(
        u.as_slice(),
        "/tutorial",
    ) {
        return lit_string("documentation");
    }
    if contains_lit(u.as_slice(), "/video") || contains_lit(u.as_slice(), "/watch") {
        return lit_string("video");
    }
    if contains_lit(u.as_slice(), "/image") || contains_lit(u.as_slice(), "/gallery") {
        return lit_string("image");
    }
    if contains_lit(u.as_slice(), "/faq") || contains_lit(u.as_slice(), "/help") {
        return lit_string("faq");
    }
    if contains_lit(u.as_slice(), "/about") || contains_lit(u.as_slice(), "/contact")
        || contains_lit(u.as_slice(), "/privacy") {
        return lit_string("info");
    }
    lit_string("page")
}

fn contains_lit(s: &[char], pat: &str) -> (r: bool)
    ensures
        r == spec_contains(s@, pat@),
{
    crate::text::contains_chars(s, crate::text::to_chars(pat).as_slice())
}

fn lit_string(s: &str) -> (r: String)
    ensures
        r@ == s@,
{
    crate::text::from_chars(&crate::text::to_chars(s))
}

/// The five XML entities decoded, in the order the amp first.
pub open spec fn spec_decode_xml(s: Seq<char>) -> Seq<char> {
    spec_replace(
        spec_replace(
            spec_replace(
                spec_replace(spec_replace(s, "&amp;"@, "&"@), "&lt;"@, "<"@),
                "&gt;"@,
                ">"@,
            ),
            "&quot;"@,
            "\""@,
        ),
        "&apos;"@,
        "'"@,
    )
}

pub fn decode_xml_entities(text: &str) -> (r: String)
    ensures
        r@ == spec_decode_xml(text@),
{
    let cs = crate::text::to_chars(text);
    let s1 = crate::text::replace_chars(
        cs.as_slice(),
        crate::text::to_chars("&amp;").as_slice(),
        crate::text::to_chars("&").as_slice(),
    );
    let s2 = crate::text::replace_chars(
        s1.as_slice(),
        crate::text::to_chars("&lt;").as_slice(),
        crate::text::to_chars("<").as_slice(),
    );
    let s3 = crate::text::replace_chars(
        s2.as_slice(),
        crate::text::to_chars("&gt;").as_slice(),
        crate::text::to_chars(">").as_slice(),
    );
    let s4 = crate::text::replace_chars(
        s3.as_slice(),
        crate::text::to_chars("&quot;").as_slice(),
        crate::text::to_chars("\"").as_slice(),
    );
    let s5 = crate::text::replace_chars(
        s4.as_slice(),
        crate::text::to_chars("&apos;").as_slice(),
        crate::text::to_chars("'").as_slice(),
    );
    crate::text::from_chars(&s5)
}

/// The kind of sitemap a document holds.
#[derive(PartialEq, Eq, Structural, Clone, Copy, Debug)]
pub enum SitemapType {
    Standard,
    Index,
    Unknown,
}

} // verus!
