//! Validation of the machine-readable manifests a site may publish: the
//! plugin manifest, the protocol manifest, and the API specification.

use vstd::prelude::*;

use crate::text::spec_contains;

verus! {

/// What `url::Url::parse` makes of a text: nothing when it parses, or the
/// error's display form; the outcome depends on the text alone.
pub uninterp spec fn url_parse_result(s: Seq<char>) -> Option<Seq<char>>;

/// Relies on `url::Url::parse` for URL validity, and on the error's
/// `Display` form for the message.
#[verifier::external_body]
pub fn url_parse_err(s: &str) -> (r: Option<String>)
    ensures
        match r {
            Some(e) => url_parse_result(s@) == Some(e@),
            None => url_parse_result(s@) is None,
        },
{
    match url::Url::parse(s) {
        Ok(_) => None,
        Err(e) => Some(e.to_string()),
    }
}

// ---------------------------------------------------------------------------
// The plugin manifest.
// ---------------------------------------------------------------------------

pub struct AuthConfig {
    pub auth_type: String,
}

pub struct ApiConfig {
    pub api_type: String,
    pub url: String,
    pub is_user_authenticated: bool,
}

/// A parsed plugin manifest; the surrounding program turns the raw JSON
/// into this form.
pub struct AiPluginManifest {
    pub schema_version: String,
    pub name_for_human: String,
    pub name_for_model: String,
    pub description_for_human: String,
    pub description_for_model: String,
    pub auth: AuthConfig,
    pub api: ApiConfig,
    pub logo_url: String,
    pub contact_email: String,
    pub legal_info_url: String,
}

pub struct ValidationIssue {
    pub field: String,
    pub message: String,
}

/// The outcome of validating a plugin manifest.
pub struct ManifestValidation {
    pub valid: bool,
    pub issues: Vec<ValidationIssue>,
    pub warnings: Vec<String>,
    pub manifest: Option<AiPluginManifest>,
}

impl ManifestValidation {
    pub fn new() -> (r: ManifestValidation)
        ensures
            r.valid == true,
            r.issues@.len() == 0,
            r.warnings@.len() == 0,
            r.manifest is None,
    {
        ManifestValidation { valid: true, issues: Vec::new(), warnings: Vec::new(), manifest: None }
    }

    /// Record an issue; the manifest is then invalid.
    pub fn add_issue(&mut self, field: &str, message: &str)
        ensures
            final(self).valid == false,
            final(self).issues@.len() == old(self).issues@.len() + 1,
            final(self).issues@.last().field@ == field@,
            final(self).issues@.last().message@ == message@,
            forall|j: int| 0 <= j < old(self).issues@.len() ==> final(self).issues@[j] == old(
                self,
            ).issues@[j],
            final(self).warnings == old(self).warnings,
            final(self).manifest == old(self).manifest,
    {
        self.valid = false;
        self.issues.push(
            ValidationIssue {
                field: crate::text::from_chars(&crate::text::to_chars(field)),
                message: crate::text::from_chars(&crate::text::to_chars(message)),
            },
        );
    }

    /// Record a warning; validity is unchanged.
    pub fn add_warning(&mut self, message: &str)
        ensures
            final(self).valid == old(self).valid,
            final(self).warnings@.len() == old(self).warnings@.len() + 1,
            final(self).warnings@.last()@ == message@,
            forall|j: int| 0 <= j < old(self).warnings@.len() ==> final(self).warnings@[j] == old(
                self,
            ).warnings@[j],
            final(self).issues == old(self).issues,
            final(self).manifest == old(self).manifest,
    {
        self.warnings.push(crate::text::from_chars(&crate::text::to_chars(message)));
    }
}

pub open spec fn spec_pf_f1(m: AiPluginManifest) -> Seq<Seq<char>> {
    if spec_contains(m.name_for_model@, " "@) {
        Seq::<Seq<char>>::empty().push("name_for_model"@)
    } else {
        Seq::<Seq<char>>::empty()
    }
}

pub open spec fn spec_pf_f2(m: AiPluginManifest) -> Seq<Seq<char>> {
    if m.name_for_model@.len() == 0 {
        spec_pf_f1(m).push("name_for_model"@)
    } else {
        spec_pf_f1(m)
    }
}

pub open spec fn spec_pf_f3(m: AiPluginManifest) -> Seq<Seq<char>> {
    if m.description_for_human@.len() == 0 {
        spec_pf_f2(m).push("description_for_human"@)
    } else {
        spec_pf_f2(m)
    }
}

pub open spec fn spec_pf_f4(m: AiPluginManifest) -> Seq<Seq<char>> {
    if m.description_for_model@.len() == 0 {
        spec_pf_f3(m).push("description_for_model"@)
    } else {
        spec_pf_f3(m)
    }
}

pub open spec fn spec_pf_f5(m: AiPluginManifest) -> Seq<Seq<char>> {
    if m.description_for_model@.len() > 8000 {
        spec_pf_f4(m).push("description_for_model"@)
    } else {
        spec_pf_f4(m)
    }
}

pub open spec fn spec_pf_f6(m: AiPluginManifest) -> Seq<Seq<char>> {
    if m.auth.auth_type@ != "none"@ && m.auth.auth_type@ != "user_http"@ && m.auth.auth_type@ != "service_http"@ {
        spec_pf_f5(m).push("auth.type"@)
    } else {
        spec_pf_f5(m)
    }
}

pub open spec fn spec_pf_f7(m: AiPluginManifest) -> Seq<Seq<char>> {
    if m.api.api_type@ != "openapi"@ {
        spec_pf_f6(m).push("api.type"@)
    } else {
        spec_pf_f6(m)
    }
}

pub open spec fn spec_pf_f8(m: AiPluginManifest) -> Seq<Seq<char>> {
    if url_parse_result(m.api.url@) is Some {
        spec_pf_f7(m).push("api.url"@)
    } else {
        spec_pf_f7(m)
    }
}

pub open spec fn spec_pf_f9(m: AiPluginManifest) -> Seq<Seq<char>> {
    if url_parse_result(m.logo_url@) is Some {
        spec_pf_f8(m).push("logo_url"@)
    } else {
        spec_pf_f8(m)
    }
}

pub open spec fn spec_pf_f10(m: AiPluginManifest) -> Seq<Seq<char>> {
    if url_parse_result(m.legal_info_url@) is Some {
        spec_pf_f9(m).push("legal_info_url"@)
    } else {
        spec_pf_f9(m)
    }
}

pub open spec fn spec_pf_f11(m: AiPluginManifest) -> Seq<Seq<char>> {
    if !spec_contains(m.contact_email@, "@"@) {
        spec_pf_f10(m).push("contact_email"@)
    } else {
        spec_pf_f10(m)
    }
}

/// Which issue fields a plugin manifest validation raises: the model name
/// (spaces or empty), the human descriptions, the length limit, the auth
/// and API types, the three URLs, and the contact address.
pub open spec fn spec_plugin_issue_fields(m: AiPluginManifest) -> Seq<Seq<char>> {
    spec_pf_f11(m)
}

/// Validate a parsed plugin manifest: names, descriptions, auth and API
/// types, the URLs, and the contact address, with warnings for long names,
/// short model descriptions and unknown schema versions.

/// Record an issue when the condition holds.
fn push_issue_if(v: &mut ManifestValidation, cond: bool, field: &str, message: &str)
    ensures
        final(v).issues@.map_values(|i: ValidationIssue| i.field@) == if cond {
            old(v).issues@.map_values(|i: ValidationIssue| i.field@).push(field@)
        } else {
            old(v).issues@.map_values(|i: ValidationIssue| i.field@)
        },
        final(v).valid == (old(v).valid && !cond),
        final(v).manifest == old(v).manifest,
        final(v).warnings == old(v).warnings,
{
    if cond {
        v.add_issue(field, message);
        proof {
            lemma_fields_push(old_issues_helper(v.issues@), v.issues@);
        }
    }
}

#[verifier::rlimit(50)]
pub fn validate_plugin_manifest(manifest: AiPluginManifest) -> (r: ManifestValidation)
    ensures
        r.issues@.map_values(|i: ValidationIssue| i.field@) == spec_plugin_issue_fields(manifest),
        r.valid == (spec_plugin_issue_fields(manifest).len() == 0),
        r.valid ==> r.manifest is Some,
{
    let mut validation = ManifestValidation::new();
    let ghost m = manifest;
    proof {
        assert(validation.issues@.map_values(|i: ValidationIssue| i.field@) =~= Seq::<
            Seq<char>,
        >::empty());
    }
    let sv = crate::text::to_chars(manifest.schema_version.as_str());
    if !crate::text::chars_eq(sv.as_slice(), crate::text::to_chars("v1").as_slice()) {
        validation.add_warning("Schema version may not be supported (expected 'v1')");
    }
    let nm = crate::text::to_chars(manifest.name_for_model.as_str());
    let has_space = crate::text::contains_chars(
        nm.as_slice(),
        crate::text::to_chars(" ").as_slice(),
    );
    push_issue_if(
        &mut validation,
        has_space,
        "name_for_model",
        "Must not contain spaces (used as namespace identifier)",
    );
    push_issue_if(&mut validation, nm.len() == 0, "name_for_model", "Cannot be empty");
    if manifest.name_for_human.as_str().unicode_len() > 50 {
        validation.add_warning("name_for_human is longer than 50 characters");
    }
    if nm.len() > 50 {
        validation.add_warning("name_for_model is longer than 50 characters");
    }
    let dh = crate::text::to_chars(manifest.description_for_human.as_str());
    push_issue_if(&mut validation, dh.len() == 0, "description_for_human", "Cannot be empty");
    let dm = crate::text::to_chars(manifest.description_for_model.as_str());
    push_issue_if(&mut validation, dm.len() == 0, "description_for_model", "Cannot be empty");
    push_issue_if(
        &mut validation,
        dm.len() > 8000,
        "description_for_model",
        "Exceeds maximum length of 8000 characters",
    );
    if dm.len() < 100 {
        validation.add_warning(
            "description_for_model is short (< 100 chars) - consider adding more detail for better AI understanding",
        );
    }
    let at = crate::text::to_chars(manifest.auth.auth_type.as_str());
    let bad_auth = !crate::text::chars_eq(at.as_slice(), crate::text::to_chars("none").as_slice())
        && !crate::text::chars_eq(at.as_slice(), crate::text::to_chars("user_http").as_slice())
        && !crate::text::chars_eq(at.as_slice(), crate::text::to_chars("service_http").as_slice());
    push_issue_if(
        &mut validation,
        bad_auth,
        "auth.type",
        "Invalid auth type (must be: none, user_http, or service_http)",
    );
    let apit = crate::text::to_chars(manifest.api.api_type.as_str());
    let bad_api = !crate::text::chars_eq(
        apit.as_slice(),
        crate::text::to_chars("openapi").as_slice(),
    );
    push_issue_if(
        &mut validation,
        bad_api,
        "api.type",
        "Invalid API type (currently only 'openapi' is supported)",
    );
    let bad_api_url = match url_parse_err(manifest.api.url.as_str()) {
        Some(_) => true,
        None => false,
    };
    push_issue_if(&mut validation, bad_api_url, "api.url", "Invalid URL");
    let bad_logo = match url_parse_err(manifest.logo_url.as_str()) {
        Some(_) => true,
        None => false,
    };
    push_issue_if(&mut validation, bad_logo, "logo_url", "Invalid URL");
    let bad_legal = match url_parse_err(manifest.legal_info_url.as_str()) {
        Some(_) => true,
        None => false,
    };
    push_issue_if(&mut validation, bad_legal, "legal_info_url", "Invalid URL");
    let em = crate::text::to_chars(manifest.contact_email.as_str());
    let bad_email = !crate::text::contains_chars(
        em.as_slice(),
        crate::text::to_chars("@").as_slice(),
    );
    push_issue_if(&mut validation, bad_email, "contact_email", "Invalid email format");
    proof {
        assert(validation.issues@.map_values(|i: ValidationIssue| i.field@)
            == spec_plugin_issue_fields(m));
        assert(validation.valid == (spec_plugin_issue_fields(m).len() == 0)) by {
            if validation.valid {
                assert(validation.issues@.map_values(|i: ValidationIssue| i.field@).len() == 0);
            }
        }
    }
    if validation.valid {
        validation.manifest = Some(manifest);
    }
    validation
}

/// Identity helper naming the prefix of an issue list in proofs.
pub open spec fn old_issues_helper(s: Seq<ValidationIssue>) -> Seq<ValidationIssue> {
    s.drop_last()
}

proof fn lemma_fields_push(prev: Seq<ValidationIssue>, cur: Seq<ValidationIssue>)
    requires
        cur.len() > 0,
        prev == cur.drop_last(),
    ensures
        cur.map_values(|i: ValidationIssue| i.field@) =~= prev.map_values(
            |i: ValidationIssue| i.field@,
        ).push(cur.last().field@),
{
}


// ---------------------------------------------------------------------------
// The protocol manifest.
// ---------------------------------------------------------------------------

pub struct ToolsCapability {
    pub list: Option<bool>,
    pub call: Option<bool>,
}

pub struct ResourcesCapability {
    pub list: Option<bool>,
}

pub struct PromptsCapability {
    pub list: Option<bool>,
}

pub struct McpCapabilities {
    pub tools: Option<ToolsCapability>,
    pub resources: Option<ResourcesCapability>,
    pub prompts: Option<PromptsCapability>,
    pub events: Option<crate::json::JsonValue>,
}

pub struct McpTransport {
    pub transport_type: String,
    pub endpoint: String,
    pub authorization: String,
}

pub struct McpTool {
    pub name: String,
    pub description: String,
    pub input_schema: crate::json::JsonValue,
}

pub struct McpResource {
    pub uri: String,
    pub name: String,
    pub description: Option<String>,
    pub mime_type: Option<String>,
}

pub struct McpPromptArgument {
    pub name: String,
    pub description: Option<String>,
    pub required: bool,
}

pub struct McpPrompt {
    pub name: String,
    pub description: Option<String>,
    pub arguments: Vec<McpPromptArgument>,
}

pub struct McpHealthConfig {
    pub endpoint: String,
}

/// A parsed protocol manifest; the surrounding program turns the raw JSON
/// into this form.
pub struct McpManifest {
    pub schema_version: String,
    pub protocol_version: String,
    pub name: String,
    pub description: String,
    pub version: String,
    pub supported_protocol_versions: Option<Vec<String>>,
    pub capabilities: McpCapabilities,
    pub transport: McpTransport,
    pub tools: Vec<McpTool>,
    pub resources: Vec<McpResource>,
    pub prompts: Vec<McpPrompt>,
    pub health: Option<McpHealthConfig>,
}

/// The outcome of validating a protocol manifest.
pub struct McpManifestValidation {
    pub valid: bool,
    pub name: Option<String>,
    pub version: Option<String>,
    pub protocol_version: Option<String>,
    pub transport_type: Option<String>,
    pub endpoint: Option<String>,
    pub authorization: Option<String>,
    pub tool_count: usize,
    pub resource_count: usize,
    pub prompt_count: usize,
    pub has_tools_capability: bool,
    pub has_resources_capability: bool,
    pub has_prompts_capability: bool,
    pub has_events_capability: bool,
    pub health_endpoint: Option<String>,
    pub issues: Vec<String>,
}

/// Whether the manifest's hard requirements hold: a name, the two version
/// fields, a transport type, and an endpoint that parses as a URL.
pub open spec fn spec_mcp_valid(m: McpManifest) -> bool {
    &&& m.name@.len() > 0
    &&& m.schema_version@.len() > 0
    &&& m.protocol_version@.len() > 0
    &&& m.transport.transport_type@.len() > 0
    &&& m.transport.endpoint@.len() > 0
    &&& url_parse_result(m.transport.endpoint@) is None
}

/// Validate a parsed protocol manifest: the required fields, the transport,
/// each tool's name, description and schema, and capability declarations
/// matching the listed content.
pub fn validate_mcp_manifest(manifest: &McpManifest) -> (r: McpManifestValidation)
    ensures
        r.valid == spec_mcp_valid(*manifest),
        r.tool_count == manifest.tools@.len(),
        r.resource_count == manifest.resources@.len(),
        r.prompt_count == manifest.prompts@.len(),
        r.has_tools_capability == (manifest.capabilities.tools is Some),
        r.has_resources_capability == (manifest.capabilities.resources is Some),
        r.has_prompts_capability == (manifest.capabilities.prompts is Some),
        r.has_events_capability == (manifest.capabilities.events is Some),
        (match r.name {
            Some(n) => n@ == manifest.name@,
            None => false,
        }),
        (match r.protocol_version {
            Some(v) => v@ == manifest.protocol_version@,
            None => false,
        }),
        (match r.endpoint {
            Some(e) => e@ == manifest.transport.endpoint@,
            None => false,
        }),
{
    let mut valid = true;
    let mut issues: Vec<String> = Vec::new();
    let name = crate::text::to_chars(manifest.name.as_str());
    if name.len() == 0 {
        valid = false;
        issues.push(lit_string("Missing or empty 'name' field"));
    }
    let sv = crate::text::to_chars(manifest.schema_version.as_str());
    if sv.len() == 0 {
        valid = false;
        issues.push(lit_string("Missing or empty 'schemaVersion' field"));
    }
    let pv = crate::text::to_chars(manifest.protocol_version.as_str());
    if pv.len() == 0 {
        valid = false;
        issues.push(lit_string("Missing or empty 'protocolVersion' field"));
    }
    let tt = crate::text::to_chars(manifest.transport.transport_type.as_str());
    if tt.len() == 0 {
        valid = false;
        issues.push(lit_string("Missing or empty transport type"));
    } else if !crate::text::chars_eq(tt.as_slice(), crate::text::to_chars("http").as_slice())
        && !crate::text::chars_eq(tt.as_slice(), crate::text::to_chars("sse").as_slice()) {
        issues.push(lit_string("Unknown transport type (expected 'http' or 'sse')"));
    }
    let ep = crate::text::to_chars(manifest.transport.endpoint.as_str());
    let mut endpoint_ok = true;
    if ep.len() == 0 {
        valid = false;
        endpoint_ok = false;
        issues.push(lit_string("Missing or empty transport endpoint"));
    } else {
        match url_parse_err(manifest.transport.endpoint.as_str()) {
            Some(_) => {
                valid = false;
                endpoint_ok = false;
                issues.push(lit_string("Invalid endpoint URL"));
            },
            None => {},
        }
    }
    let mut i: usize = 0;
    while i < manifest.tools.len()
        invariant
            i <= manifest.tools@.len(),
            valid == spec_mcp_valid(*manifest),
        decreases manifest.tools@.len() - i,
    {
        let tool = &manifest.tools[i];
        if crate::text::to_chars(tool.name.as_str()).len() == 0 {
            issues.push(lit_string("Tool with empty name found"));
        }
        if crate::text::to_chars(tool.description.as_str()).len() == 0 {
            issues.push(lit_string("Tool missing description"));
        }
        match &tool.input_schema {
            crate::json::JsonValue::Object(_) => {},
            _ => {
                issues.push(lit_string("Tool has invalid input schema (must be object)"));
            },
        }
        i = i + 1;
    }
    if manifest.tools.len() > 0 && !matches!(&manifest.capabilities.tools, Some(_)) {
        issues.push(lit_string("Tools defined but tools capability not declared"));
    }
    if manifest.resources.len() > 0 && !matches!(&manifest.capabilities.resources, Some(_)) {
        issues.push(lit_string("Resources defined but resources capability not declared"));
    }
    if manifest.prompts.len() > 0 && !matches!(&manifest.capabilities.prompts, Some(_)) {
        issues.push(lit_string("Prompts defined but prompts capability not declared"));
    }
    McpManifestValidation {
        valid,
        name: Some(manifest.name.clone()),
        version: Some(manifest.version.clone()),
        protocol_version: Some(manifest.protocol_version.clone()),
        transport_type: Some(manifest.transport.transport_type.clone()),
        endpoint: Some(manifest.transport.endpoint.clone()),
        authorization: Some(manifest.transport.authorization.clone()),
        tool_count: manifest.tools.len(),
        resource_count: manifest.resources.len(),
        prompt_count: manifest.prompts.len(),
        has_tools_capability: matches!(&manifest.capabilities.tools, Some(_)),
        has_resources_capability: matches!(&manifest.capabilities.resources, Some(_)),
        has_prompts_capability: matches!(&manifest.capabilities.prompts, Some(_)),
        has_events_capability: matches!(&manifest.capabilities.events, Some(_)),
        health_endpoint: match &manifest.health {
            Some(h) => Some(h.endpoint.clone()),
            None => None,
        },
        issues,
    }
}

fn lit_string(s: &str) -> (r: String)
    ensures
        r@ == s@,
{
    crate::text::from_chars(&crate::text::to_chars(s))
}

// ---------------------------------------------------------------------------
// The API specification.
// ---------------------------------------------------------------------------

/// One operation of the API document, as the validator reads it.
pub struct OpDoc {
    pub method: String,
    pub summary: Option<String>,
    pub has_success_response: bool,
}

/// One path of the API document with its operations.
pub struct PathDoc {
    pub path: String,
    pub operations: Vec<OpDoc>,
}

/// The parts of an API specification the validator reads; the surrounding
/// program extracts them from the parsed document.
pub struct OpenApiDoc {
    pub openapi: String,
    pub title: String,
    pub version: String,
    pub servers: Vec<String>,
    pub paths: Vec<PathDoc>,
    pub schema_count: usize,
    pub has_security: bool,
}

/// An endpoint line of the validation result.
pub struct EndpointInfo {
    pub method: String,
    pub path: String,
    pub summary: Option<String>,
    pub has_success_response: bool,
}

pub struct OpenApiStats {
    pub total_paths: usize,
    pub total_operations: usize,
    pub total_schemas: usize,
    pub has_security: bool,
}

pub struct OpenApiValidation {
    pub valid: bool,
    pub version: Option<String>,
    pub title: Option<String>,
    pub api_version: Option<String>,
    pub servers: Vec<String>,
    pub endpoints: Vec<EndpointInfo>,
    pub issues: Vec<String>,
    pub warnings: Vec<String>,
    pub stats: OpenApiStats,
}

impl OpenApiValidation {
    pub fn new() -> (r: OpenApiValidation)
        ensures
            r.valid == true,
            r.version is None,
            r.title is None,
            r.api_version is None,
            r.servers@.len() == 0,
            r.endpoints@.len() == 0,
            r.issues@.len() == 0,
            r.warnings@.len() == 0,
            r.stats.total_paths == 0,
            r.stats.total_operations == 0,
            r.stats.total_schemas == 0,
            r.stats.has_security == false,
    {
        OpenApiValidation {
            valid: true,
            version: None,
            title: None,
            api_version: None,
            servers: Vec::new(),
            endpoints: Vec::new(),
            issues: Vec::new(),
            warnings: Vec::new(),
            stats: OpenApiStats {
                total_paths: 0,
                total_operations: 0,
                total_schemas: 0,
                has_security: false,
            },
        }
    }

    /// Record an issue; the specification is then invalid.
    pub fn add_issue(&mut self, message: String)
        ensures
            final(self).valid == false,
            final(self).issues@.len() == old(self).issues@.len() + 1,
            final(self).issues@.last()@ == message@,
            forall|j: int| 0 <= j < old(self).issues@.len() ==> final(self).issues@[j] == old(
                self,
            ).issues@[j],
            final(self).warnings == old(self).warnings,
            final(self).stats == old(self).stats,
            final(self).endpoints == old(self).endpoints,
            final(self).version == old(self).version,
            final(self).title == old(self).title,
            final(self).api_version == old(self).api_version,
            final(self).servers == old(self).servers,
    {
        self.valid = false;
        self.issues.push(message);
    }

    /// Record a warning; validity is unchanged.
    pub fn add_warning(&mut self, message: String)
        ensures
            final(self).valid == old(self).valid,
            final(self).warnings@.len() == old(self).warnings@.len() + 1,
            final(self).warnings@.last()@ == message@,
            forall|j: int| 0 <= j < old(self).warnings@.len() ==> final(self).warnings@[j] == old(
                self,
            ).warnings@[j],
            final(self).issues == old(self).issues,
            final(self).stats == old(self).stats,
            final(self).endpoints == old(self).endpoints,
            final(self).version == old(self).version,
            final(self).title == old(self).title,
            final(self).api_version == old(self).api_version,
            final(self).servers == old(self).servers,
    {
        self.warnings.push(message);
    }
}

/// How many operations the first `n` paths hold.
pub open spec fn spec_total_ops(paths: Seq<PathDoc>, n: int) -> int
    decreases n,
{
    if n <= 0 || n > paths.len() {
        0
    } else {
        spec_total_ops(paths, n - 1) + paths[n - 1].operations@.len()
    }
}

/// Validate an API document: version, servers, one endpoint per operation,
/// and the operation, schema and security statistics. Invalid without a
/// server or without any operation.
#[verifier::loop_isolation(false)]
pub fn validate_openapi(doc: &OpenApiDoc) -> (r: OpenApiValidation)
    ensures
        r.stats.total_paths == doc.paths@.len(),
        r.stats.total_operations == spec_total_ops(doc.paths@, doc.paths@.len() as int),
        r.stats.total_schemas == doc.schema_count,
        r.stats.has_security == doc.has_security,
        r.valid == (doc.servers@.len() > 0 && spec_total_ops(doc.paths@, doc.paths@.len() as int)
            > 0),
        r.endpoints@.len() == spec_total_ops(doc.paths@, doc.paths@.len() as int),
        (match r.version {
            Some(v) => v@ == doc.openapi@,
            None => false,
        }),
        (match r.title {
            Some(v) => v@ == doc.title@,
            None => false,
        }),
{
    let mut validation = OpenApiValidation::new();
    validation.version = Some(doc.openapi.clone());
    validation.title = Some(doc.title.clone());
    validation.api_version = Some(doc.version.clone());
    let oc = crate::text::to_chars(doc.openapi.as_str());
    if !crate::text::starts_with_chars(oc.as_slice(), crate::text::to_chars("3.").as_slice()) {
        validation.add_warning(lit_string("OpenAPI version 3.x is recommended"));
    }
    let mut servers: Vec<String> = Vec::new();
    let mut i: usize = 0;
    while i < doc.servers.len()
        invariant
            i <= doc.servers@.len(),
            servers@.len() == i,
        decreases doc.servers@.len() - i,
    {
        servers.push(doc.servers[i].clone());
        i = i + 1;
    }
    validation.servers = servers;
    let no_servers = doc.servers.len() == 0;
    if no_servers {
        validation.add_issue(lit_string("No servers defined - at least one server URL is required"));
    }
    let mut endpoints: Vec<EndpointInfo> = Vec::new();
    let mut i: usize = 0;
    while i < doc.paths.len()
        invariant
            i <= doc.paths@.len(),
            endpoints@.len() == spec_total_ops(doc.paths@, i as int),
            validation.valid == !no_servers,
            validation.stats == (OpenApiStats {
                total_paths: 0,
                total_operations: 0,
                total_schemas: 0,
                has_security: false,
            }),
            (match validation.version {
                Some(v) => v@ == doc.openapi@,
                None => false,
            }),
            (match validation.title {
                Some(v) => v@ == doc.title@,
                None => false,
            }),
        decreases doc.paths@.len() - i,
    {
        let path = &doc.paths[i];
        let mut k: usize = 0;
        while k < path.operations.len()
            invariant
                i < doc.paths@.len(),
                k <= doc.paths@[i as int].operations@.len(),
                endpoints@.len() == spec_total_ops(doc.paths@, i as int) + k,
                validation.valid == !no_servers,
                validation.stats == (OpenApiStats {
                    total_paths: 0,
                    total_operations: 0,
                    total_schemas: 0,
                    has_security: false,
                }),
                (match validation.version {
                    Some(v) => v@ == doc.openapi@,
                    None => false,
                }),
                (match validation.title {
                    Some(v) => v@ == doc.title@,
                    None => false,
                }),
            decreases doc.paths@[i as int].operations@.len() - k,
        {
            let op = &path.operations[k];
            if !op.has_success_response {
                validation.add_warning(lit_string("Operation has no 200 response defined"));
            }
            endpoints.push(
                EndpointInfo {
                    method: op.method.clone(),
                    path: path.path.clone(),
                    summary: match &op.summary {
                        Some(s) => Some(s.clone()),
                        None => None,
                    },
                    has_success_response: op.has_success_response,
                },
            );
            k = k + 1;
        }
        i = i + 1;
    }
    let total_ops = endpoints.len();
    validation.endpoints = endpoints;
    if total_ops == 0 {
        validation.add_issue(lit_string("No operations defined in the API"));
    }
    validation.stats = OpenApiStats {
        total_paths: doc.paths.len(),
        total_operations: total_ops,
        total_schemas: doc.schema_count,
        has_security: doc.has_security,
    };
    if doc.schema_count == 0 {
        validation.add_warning(
            lit_string("No schemas defined - consider adding data models for better documentation"),
        );
    }
    validation
}

} // verus!
