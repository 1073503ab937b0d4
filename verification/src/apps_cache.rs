//! Shared raw tool cache for the host-owned Codex Apps MCP server.
//!
//! Cache entries are live state scoped by the actual Codex Apps catalog principal and catalog
//! source. Disk is best-effort cold-start persistence; entries do not reread disk after creation.

use vstd::prelude::*;

use crate::digest::fingerprint;
use crate::digest::sha1_hex;
use crate::json::canonical;
use crate::json::canonical_ignores_order;
use crate::json::canonical_is_readable;
use crate::json::canonical_json;
use crate::json::canonical_tells_apart;
use crate::json::exact_within;
use crate::json::json_parse;
use crate::json::json_parse_bytes;
use crate::json::json_pretty;
use crate::json::json_skims;
use crate::json::json_text;
use crate::json::json_view;
use crate::json::object_reads_back;
use crate::json::parsed;
use crate::json::read_json_bytes;
use crate::json::readable;
use crate::json::reads_back;
use crate::json::same_but_order;
use crate::json::skim_json_object;
use crate::json::write_json;
use crate::json::write_json_pretty;
use crate::json::JsonMap;
use crate::json::JsonNumber;
use crate::json::JsonNumberView;
use crate::json::JsonValue;
use crate::json::JsonView;
use crate::json::MAX_NESTING;
use crate::json_members::field_in;
use crate::json_members::read_field;
use crate::json_members::written_as;
use crate::json_members::written_field;
use crate::named::lookup;
use crate::named::position_is;
use crate::text::option_view;
use crate::text::same_text;

verus! {

/// The directory of the tool caches, below the home.
pub const CODEX_APPS_TOOLS_CACHE_DIR: &'static str = "cache/codex_apps_tools";

/// The version of the tool cache's format.
pub const CODEX_APPS_TOOLS_CACHE_SCHEMA_VERSION: u8 = 4;

/// The directory of the server info caches, below the home.
pub const CODEX_APPS_SERVER_INFO_CACHE_DIR: &'static str = "cache/codex_apps_server_info";

/// The version of the server info cache's format.
pub const CODEX_APPS_SERVER_INFO_CACHE_SCHEMA_VERSION: u8 = 1;

/// What the cache reads of an authenticated account.
#[derive(Debug, PartialEq, Eq)]
pub struct CodexAuth {
    pub account_id: Option<String>,
    pub chatgpt_user_id: Option<String>,
    pub workspace_account: bool,
}

/// The account that a catalog belongs to.
#[derive(Debug, PartialEq, Eq, Hash)]
pub struct CodexAppsToolsCacheKey {
    pub account_id: Option<String>,
    pub chatgpt_user_id: Option<String>,
    pub is_workspace_account: bool,
}

/// A path on the host.
#[derive(Debug, PartialEq, Eq, Hash)]
pub struct HostPath {
    /// The path as it is written.
    pub text: String,
    /// The components of the path, written in one way: paths with equal components are one path.
    pub normal: String,
    /// Whether the path is Unicode, so that `text` is all of it.
    pub unicode: bool,
}

/// Who a catalog is asked for.
#[derive(Debug, PartialEq, Eq, Hash)]
pub enum CodexAppsCatalogPrincipal {
    CodexAuth(CodexAppsToolsCacheKey),
    EnvBearerTokenFingerprint(CodexAppsBearerTokenFingerprint),
}

/// The fingerprint of a bearer token.
#[derive(Debug, PartialEq, Eq, Hash)]
pub struct CodexAppsBearerTokenFingerprint(pub String);

/// The fingerprint of where a catalog is asked.
#[derive(Debug, PartialEq, Eq, Hash)]
pub struct CodexAppsCatalogSourceFingerprint(pub String);

/// Where a catalog is asked: the environment, and the transport as a JSON document.
#[derive(Debug, PartialEq, Eq)]
pub struct CodexAppsCatalogSource {
    pub environment_id: String,
    pub transport: JsonValue,
}

/// What one entry of the cache is for.
#[derive(Debug, PartialEq, Eq, Hash)]
pub struct CodexAppsToolsCacheIdentity {
    pub codex_home: HostPath,
    pub catalog_principal: CodexAppsCatalogPrincipal,
    pub catalog_source_fingerprint: CodexAppsCatalogSourceFingerprint,
}

/// A tool of a catalog, as a JSON document.
#[derive(Debug, PartialEq, Eq)]
pub struct ToolInfo {
    pub document: JsonValue,
}

/// What a server says of itself, as a JSON document.
#[derive(Debug, PartialEq, Eq)]
pub struct McpServerInfo {
    pub document: JsonValue,
}

/// A file below the home.
#[derive(Debug, PartialEq, Eq)]
pub struct CachePath {
    pub directory: String,
    pub file_name: String,
}

/// Why a catalog is fetched.
#[derive(Debug, Clone, Copy, PartialEq, Eq, Structural)]
pub enum CodexAppsToolsFetchSource {
    Startup,
    HardRefresh,
}

/// A fetch that was begun; its generation tells how late.
#[derive(Debug, PartialEq, Eq)]
pub struct CodexAppsToolsFetchTicket {
    pub generation: u64,
    pub source: CodexAppsToolsFetchSource,
}

// The account.

/// A key as contracts speak of it.
pub struct KeyView {
    pub account_id: Option<Seq<char>>,
    pub chatgpt_user_id: Option<Seq<char>>,
    pub is_workspace_account: bool,
}

impl View for CodexAppsToolsCacheKey {
    type V = KeyView;

    open spec fn view(&self) -> KeyView {
        KeyView {
            account_id: option_view(self.account_id),
            chatgpt_user_id: option_view(self.chatgpt_user_id),
            is_workspace_account: self.is_workspace_account,
        }
    }
}

/// The key of an account; without one nothing is known.
pub fn codex_apps_tools_cache_key(auth: Option<&CodexAuth>) -> (key: CodexAppsToolsCacheKey)
    ensures
        key@ == (match auth {
            Some(auth) => (KeyView {
                account_id: option_view(auth.account_id),
                chatgpt_user_id: option_view(auth.chatgpt_user_id),
                is_workspace_account: auth.workspace_account,
            }),
            None => (KeyView {
                account_id: None,
                chatgpt_user_id: None,
                is_workspace_account: false,
            }),
        }),
{
    match auth {
        Some(auth) => CodexAppsToolsCacheKey {
            account_id: auth.account_id.clone(),
            chatgpt_user_id: auth.chatgpt_user_id.clone(),
            is_workspace_account: auth.workspace_account,
        },
        None => CodexAppsToolsCacheKey {
            account_id: None,
            chatgpt_user_id: None,
            is_workspace_account: false,
        },
    }
}

// The catalog source.

/// The document of a catalog source.
pub open spec fn source_document(environment_id: Seq<char>, transport: JsonView) -> JsonView {
    JsonView::Object(
        seq![
            ("environment_id"@, JsonView::Text(environment_id)),
            ("transport"@, transport),
        ],
    )
}

/// The text of a catalog source: that of its canonical document.
pub open spec fn source_text(environment_id: Seq<char>, transport: JsonView) -> Seq<char> {
    json_text(canonical(source_document(environment_id, transport)))
}

/// The fingerprint of a catalog source: that of its text.
pub open spec fn source_fingerprint(environment_id: Seq<char>, transport: JsonView) -> Seq<char> {
    fingerprint(source_text(environment_id, transport))
}

/// Whether reading the text of a catalog source gives its canonical document back.
pub open spec fn source_reads_back(environment_id: Seq<char>, transport: JsonView) -> bool {
    json_parse(source_text(environment_id, transport)) == parsed(
        canonical(source_document(environment_id, transport)),
    )
}

/// The document of a catalog source is one that reading gives back, where its transport is one that
/// may stand in a document.
proof fn source_document_reads_back(environment_id: Seq<char>, transport: JsonView)
    requires
        readable(transport),
    ensures
        readable(source_document(environment_id, transport)),
        exact_within(transport, (MAX_NESTING - 1) as nat) ==> reads_back(
            canonical(source_document(environment_id, transport)),
        ),
{
    reveal_strlit("environment_id");
    reveal_strlit("transport");
    assert("environment_id"@.len() == 14 && "transport"@.len() == 9);
    let document = source_document(environment_id, transport);
    let members = document->Object_0;
    reveal_with_fuel(readable, 2);
    reveal_with_fuel(exact_within, 2);
    assert(readable(members[0].1) && exact_within(members[0].1, (MAX_NESTING - 1) as nat));
    assert(readable(document));
    if exact_within(transport, (MAX_NESTING - 1) as nat) {
        assert(exact_within(document, MAX_NESTING as nat));
    }
    canonical_is_readable(document, MAX_NESTING as nat);
}

/// An object of two members.
fn pair(name: &str, value: JsonValue, other: &str, next: JsonValue) -> (object: JsonValue)
    ensures
        object@ == JsonView::Object(seq![(name@, value@), (other@, next@)]),
{
    let mut entries: Vec<(String, JsonValue)> = Vec::new();
    entries.push((name.to_owned(), value));
    entries.push((other.to_owned(), next));
    let object = JsonValue::Object(JsonMap { entries });
    assert(object@->Object_0 =~= seq![(name@, value@), (other@, next@)]);
    object
}

/// The fingerprint of a catalog source, which does not depend on the order of object members.
pub fn codex_apps_catalog_source_fingerprint(source: &CodexAppsCatalogSource) -> (result:
    CodexAppsCatalogSourceFingerprint)
    ensures
        result.0@ == source_fingerprint(source.environment_id@, source.transport@),
        readable(source.transport@) && exact_within(source.transport@, (MAX_NESTING - 1) as nat)
            ==> source_reads_back(source.environment_id@, source.transport@),
{
    proof {
        if readable(source.transport@) {
            source_document_reads_back(source.environment_id@, source.transport@);
        }
    }
    let document = pair(
        "environment_id",
        JsonValue::Text(source.environment_id.clone()),
        "transport",
        source.transport.duplicate(),
    );
    CodexAppsCatalogSourceFingerprint(sha1_hex(write_json(&canonical_json(&document)).as_str()))
}

// The identity.

/// A principal as contracts speak of it.
pub enum PrincipalView {
    CodexAuth(KeyView),
    EnvBearerTokenFingerprint(Seq<char>),
}

impl View for CodexAppsCatalogPrincipal {
    type V = PrincipalView;

    open spec fn view(&self) -> PrincipalView {
        match *self {
            CodexAppsCatalogPrincipal::CodexAuth(key) => PrincipalView::CodexAuth(key@),
            CodexAppsCatalogPrincipal::EnvBearerTokenFingerprint(token) =>
                PrincipalView::EnvBearerTokenFingerprint(token.0@),
        }
    }
}

/// A path as contracts speak of it.
pub struct HostPathView {
    pub text: Seq<char>,
    pub normal: Seq<char>,
    pub unicode: bool,
}

impl View for HostPath {
    type V = HostPathView;

    open spec fn view(&self) -> HostPathView {
        HostPathView { text: self.text@, normal: self.normal@, unicode: self.unicode }
    }
}

/// An identity as contracts speak of it.
pub struct IdentityView {
    pub codex_home: HostPathView,
    pub catalog_principal: PrincipalView,
    pub catalog_source_fingerprint: Seq<char>,
}

impl View for CodexAppsToolsCacheIdentity {
    type V = IdentityView;

    open spec fn view(&self) -> IdentityView {
        IdentityView {
            codex_home: self.codex_home@,
            catalog_principal: self.catalog_principal@,
            catalog_source_fingerprint: self.catalog_source_fingerprint.0@,
        }
    }
}

/// The principal of a catalog. A bearer token, where there is one, and not the account, selects
/// the remote catalog; only its fingerprint is kept.
pub open spec fn principal_of(auth_key: KeyView, bearer_token: Option<Seq<char>>) -> PrincipalView {
    match bearer_token {
        Some(token) => PrincipalView::EnvBearerTokenFingerprint(fingerprint(token)),
        None => PrincipalView::CodexAuth(auth_key),
    }
}

/// The identity of a catalog.
pub open spec fn identity_of(
    codex_home: HostPathView,
    auth_key: KeyView,
    environment_id: Seq<char>,
    transport: JsonView,
    bearer_token: Option<Seq<char>>,
) -> IdentityView {
    IdentityView {
        codex_home,
        catalog_principal: principal_of(auth_key, bearer_token),
        catalog_source_fingerprint: source_fingerprint(environment_id, transport),
    }
}

/// A text that is lent, where there is one, as contracts speak of it.
pub open spec fn lent_view(text: Option<&str>) -> Option<Seq<char>> {
    match text {
        Some(text) => Some(text@),
        None => None,
    }
}

/// Two identities name one entry: same home, same principal, same source.
pub open spec fn same_identity(a: IdentityView, b: IdentityView) -> bool {
    &&& a.codex_home.normal == b.codex_home.normal
    &&& a.catalog_principal == b.catalog_principal
    &&& a.catalog_source_fingerprint == b.catalog_source_fingerprint
}

/// A text, or null where there is none.
pub open spec fn text_or_null(text: Option<Seq<char>>) -> JsonView {
    match text {
        Some(text) => JsonView::Text(text),
        None => JsonView::Null,
    }
}

/// The document of a principal.
pub open spec fn principal_document(principal: PrincipalView) -> JsonView {
    match principal {
        PrincipalView::CodexAuth(key) => JsonView::Object(
            seq![
                (
                    "CodexAuth"@,
                    JsonView::Object(
                        seq![
                            ("account_id"@, text_or_null(key.account_id)),
                            ("chatgpt_user_id"@, text_or_null(key.chatgpt_user_id)),
                            ("is_workspace_account"@, JsonView::Bool(key.is_workspace_account)),
                        ],
                    ),
                ),
            ],
        ),
        PrincipalView::EnvBearerTokenFingerprint(token) => JsonView::Object(
            seq![("EnvBearerTokenFingerprint"@, JsonView::Text(token))],
        ),
    }
}

/// The document of an identity.
pub open spec fn identity_document(identity: IdentityView) -> JsonView {
    JsonView::Object(
        seq![
            ("codex_home"@, JsonView::Text(identity.codex_home.text)),
            ("catalog_principal"@, principal_document(identity.catalog_principal)),
            (
                "catalog_source_fingerprint"@,
                JsonView::Text(identity.catalog_source_fingerprint),
            ),
        ],
    )
}

/// The text of an identity; empty where the home is not Unicode and cannot be written.
pub open spec fn identity_text(identity: IdentityView) -> Seq<char> {
    if identity.codex_home.unicode {
        json_text(identity_document(identity))
    } else {
        Seq::empty()
    }
}

/// Whether reading the text of an identity gives its document back.
pub open spec fn text_reads_back(identity: IdentityView) -> bool {
    json_parse(identity_text(identity)) == parsed(identity_document(identity))
}

/// The document of an identity is one that reading gives back.
proof fn identity_document_reads_back(identity: IdentityView)
    ensures
        reads_back(identity_document(identity)),
{
    reveal_strlit("codex_home");
    reveal_strlit("catalog_principal");
    reveal_strlit("catalog_source_fingerprint");
    reveal_strlit("account_id");
    reveal_strlit("chatgpt_user_id");
    reveal_strlit("is_workspace_account");
    assert("codex_home"@.len() == 10 && "catalog_principal"@.len() == 17
        && "catalog_source_fingerprint"@.len() == 26);
    assert("account_id"@.len() == 10 && "chatgpt_user_id"@.len() == 15
        && "is_workspace_account"@.len() == 20);
    reveal_with_fuel(readable, 4);
    reveal_with_fuel(exact_within, 4);
    let principal = principal_document(identity.catalog_principal);
    match identity.catalog_principal {
        PrincipalView::CodexAuth(key) => {
            let inner = principal->Object_0[0].1;
            assert(readable(inner) && exact_within(inner, 125));
        },
        _ => {},
    }
    assert(readable(principal) && exact_within(principal, 126));
}

/// The name of an identity's cache files: the fingerprint of its text.
pub open spec fn cache_file_name(identity: IdentityView) -> Seq<char> {
    fingerprint(identity_text(identity)) + ".json"@
}

fn text_value(text: &Option<String>) -> (value: JsonValue)
    ensures
        value@ == text_or_null(option_view(*text)),
{
    match text {
        Some(text) => JsonValue::Text(text.clone()),
        None => JsonValue::Null,
    }
}

fn principal_value(principal: &CodexAppsCatalogPrincipal) -> (value: JsonValue)
    ensures
        value@ == principal_document(principal@),
{
    let mut entries: Vec<(String, JsonValue)> = Vec::new();
    match principal {
        CodexAppsCatalogPrincipal::CodexAuth(key) => {
            let mut fields: Vec<(String, JsonValue)> = Vec::new();
            fields.push(("account_id".to_owned(), text_value(&key.account_id)));
            fields.push(("chatgpt_user_id".to_owned(), text_value(&key.chatgpt_user_id)));
            fields.push(
                ("is_workspace_account".to_owned(), JsonValue::Bool(key.is_workspace_account)),
            );
            let inner = JsonValue::Object(JsonMap { entries: fields });
            proof {
                reveal_with_fuel(json_view, 2);
            }
            assert(inner@->Object_0 =~= principal_document(
                principal@,
            )->Object_0[0].1->Object_0);
            entries.push(("CodexAuth".to_owned(), inner));
        },
        CodexAppsCatalogPrincipal::EnvBearerTokenFingerprint(token) => {
            entries.push(
                ("EnvBearerTokenFingerprint".to_owned(), JsonValue::Text(token.0.clone())),
            );
        },
    }
    let value = JsonValue::Object(JsonMap { entries });
    proof {
        reveal_with_fuel(json_view, 2);
    }
    assert(value@->Object_0 =~= principal_document(principal@)->Object_0);
    value
}

fn same_option(a: &Option<String>, b: &Option<String>) -> (same: bool)
    ensures
        same == (option_view(*a) == option_view(*b)),
{
    match (a, b) {
        (Some(x), Some(y)) => same_text(x.as_str(), y.as_str()),
        (None, None) => true,
        _ => false,
    }
}

fn same_principal(a: &CodexAppsCatalogPrincipal, b: &CodexAppsCatalogPrincipal) -> (same: bool)
    ensures
        same == (a@ == b@),
{
    match (a, b) {
        (CodexAppsCatalogPrincipal::CodexAuth(x), CodexAppsCatalogPrincipal::CodexAuth(y)) => {
            same_option(&x.account_id, &y.account_id) && same_option(
                &x.chatgpt_user_id,
                &y.chatgpt_user_id,
            ) && x.is_workspace_account == y.is_workspace_account
        },
        (
            CodexAppsCatalogPrincipal::EnvBearerTokenFingerprint(x),
            CodexAppsCatalogPrincipal::EnvBearerTokenFingerprint(y),
        ) => same_text(x.0.as_str(), y.0.as_str()),
        _ => false,
    }
}

impl CodexAppsToolsCacheIdentity {
    /// The identity of a catalog.
    pub fn new(
        codex_home: HostPath,
        auth_key: CodexAppsToolsCacheKey,
        source: &CodexAppsCatalogSource,
        resolved_bearer_token: Option<&str>,
    ) -> (identity: Self)
        ensures
            identity@ == identity_of(
                codex_home@,
                auth_key@,
                source.environment_id@,
                source.transport@,
                lent_view(resolved_bearer_token),
            ),
    {
        let catalog_principal = match resolved_bearer_token {
            Some(token) => CodexAppsCatalogPrincipal::EnvBearerTokenFingerprint(
                CodexAppsBearerTokenFingerprint(sha1_hex(token)),
            ),
            None => CodexAppsCatalogPrincipal::CodexAuth(auth_key),
        };
        CodexAppsToolsCacheIdentity {
            codex_home,
            catalog_principal,
            catalog_source_fingerprint: codex_apps_catalog_source_fingerprint(source),
        }
    }

    /// Whether two identities name one entry.
    pub fn matches(&self, other: &Self) -> (same: bool)
        ensures
            same == same_identity(self@, other@),
    {
        same_text(self.codex_home.normal.as_str(), other.codex_home.normal.as_str())
            && same_principal(&self.catalog_principal, &other.catalog_principal) && same_text(
            self.catalog_source_fingerprint.0.as_str(),
            other.catalog_source_fingerprint.0.as_str(),
        )
    }

    /// The file of this identity in a cache directory below the home.
    pub fn cache_path_in(&self, cache_dir: &str) -> (path: CachePath)
        ensures
            path.directory@ == cache_dir@,
            path.file_name@ == cache_file_name(self@),
            self@.codex_home.unicode ==> text_reads_back(self@),
    {
        let mut identity_json = String::new();
        if self.codex_home.unicode {
            let mut entries: Vec<(String, JsonValue)> = Vec::new();
            entries.push(
                ("codex_home".to_owned(), JsonValue::Text(self.codex_home.text.clone())),
            );
            entries.push(
                ("catalog_principal".to_owned(), principal_value(&self.catalog_principal)),
            );
            entries.push(
                (
                    "catalog_source_fingerprint".to_owned(),
                    JsonValue::Text(self.catalog_source_fingerprint.0.clone()),
                ),
            );
            let document = JsonValue::Object(JsonMap { entries });
            proof {
                reveal_with_fuel(json_view, 2);
            }
            assert(document@->Object_0 =~= identity_document(self@)->Object_0);
            proof {
                identity_document_reads_back(self@);
            }
            identity_json = write_json(&document);
        }
        assert(identity_json@ =~= identity_text(self@));
        CachePath {
            directory: cache_dir.to_owned(),
            file_name: sha1_hex(identity_json.as_str()).concat(".json"),
        }
    }
}

// The cache files.

/// The documents of tools.
pub open spec fn tool_views(tools: Seq<ToolInfo>) -> Seq<JsonView> {
    Seq::new(tools.len(), |i: int| tools[i].document@)
}

/// The documents of tools, where there are any.
pub open spec fn tools_view(tools: Option<Vec<ToolInfo>>) -> Option<Seq<JsonView>> {
    match tools {
        Some(tools) => Some(tool_views(tools@)),
        None => None,
    }
}

/// The document of a cache file: the version of its format, and what it holds under its name.
pub open spec fn cache_document(version: u8, name: Seq<char>, payload: JsonView) -> JsonView {
    JsonView::Object(
        seq![
            ("schema_version"@, JsonView::Number(JsonNumberView::Unsigned(version as u64))),
            (name, payload),
        ],
    )
}

/// What the second field of a cache file is, if the first one names this version.
pub open spec fn cached_payload(found: JsonView, payload: JsonView, version: u8) -> Option<JsonView> {
    if found == JsonView::Number(JsonNumberView::Unsigned(version as u64)) {
        Some(payload)
    } else {
        None
    }
}

/// What a cache file holds, if it is one of this version. Its two fields stand in an object under
/// their names, each once, beside others that are passed over, or in a list in their order.
pub open spec fn file_payload(bytes: Seq<u8>, version: u8, name: Seq<char>) -> Option<JsonView> {
    if json_skims(bytes) {
        match (field_in(bytes, "schema_version"@), field_in(bytes, name)) {
            (Some(found), Some(payload)) => cached_payload(found, payload, version),
            _ => None,
        }
    } else {
        match json_parse_bytes(bytes) {
            Some(JsonView::Array(items)) if items.len() == 2 => cached_payload(
                items[0],
                items[1],
                version,
            ),
            _ => None,
        }
    }
}

/// The documents of the tools that a tool cache file holds.
pub open spec fn cached_tools(bytes: Seq<u8>) -> Option<Seq<JsonView>> {
    match file_payload(bytes, CODEX_APPS_TOOLS_CACHE_SCHEMA_VERSION, "tools"@) {
        Some(JsonView::Array(tools)) => Some(tools),
        _ => None,
    }
}

/// The document of the server info that a server info cache file holds.
pub open spec fn cached_server_info(bytes: Seq<u8>) -> Option<JsonView> {
    file_payload(bytes, CODEX_APPS_SERVER_INFO_CACHE_SCHEMA_VERSION, "server_info"@)
}

/// The document of a tool cache file with these tools.
pub open spec fn tools_document(tools: Seq<JsonView>) -> JsonView {
    cache_document(CODEX_APPS_TOOLS_CACHE_SCHEMA_VERSION, "tools"@, JsonView::Array(tools))
}

/// The document of a server info cache file with this server info.
pub open spec fn server_info_document(server_info: JsonView) -> JsonView {
    cache_document(CODEX_APPS_SERVER_INFO_CACHE_SCHEMA_VERSION, "server_info"@, server_info)
}

/// Whether a document that is kept in a cache file comes back from it as it was.
pub open spec fn keepable(document: JsonView) -> bool {
    readable(document) && exact_within(document, (MAX_NESTING - 2) as nat)
}

/// What a document may be decoded to.
pub open spec fn decodes<T, D: Fn(JsonValue) -> Option<T>>(
    decode: D,
    document: JsonView,
    decoded: Option<T>,
) -> bool {
    exists|value: JsonValue|
        #![trigger call_ensures(decode, (value,), decoded)]
        value@ == document && call_ensures(decode, (value,), decoded)
}

/// What the tools of a file may be decoded to: all of them, in order, or nothing if one of them is
/// no tool.
pub open spec fn tools_decode<D: Fn(JsonValue) -> Option<ToolInfo>>(
    decode: D,
    documents: Seq<JsonView>,
    tools: Option<Vec<ToolInfo>>,
) -> bool {
    match tools {
        Some(tools) => {
            &&& tools@.len() == documents.len()
            &&& forall|i: int|
                #![trigger tools@[i]]
                0 <= i < tools@.len() ==> decodes(decode, documents[i], Some(tools@[i]))
        },
        None => exists|i: int|
            0 <= i < documents.len() && decodes(
                decode,
                #[trigger] documents[i],
                None::<ToolInfo>,
            ),
    }
}

/// What the bytes of a tool cache file may be decoded to.
pub open spec fn tools_file_answers<D: Fn(JsonValue) -> Option<ToolInfo>>(
    bytes: Seq<u8>,
    decode: D,
    tools: Option<Vec<ToolInfo>>,
) -> bool {
    match cached_tools(bytes) {
        Some(documents) => tools_decode(decode, documents, tools),
        None => tools is None,
    }
}

/// What the bytes of a server info cache file may be decoded to.
pub open spec fn server_info_file_answers<D: Fn(JsonValue) -> Option<McpServerInfo>>(
    bytes: Seq<u8>,
    decode: D,
    server_info: Option<McpServerInfo>,
) -> bool {
    match cached_server_info(bytes) {
        Some(document) => decodes(decode, document, server_info),
        None => server_info is None,
    }
}

/// A cache file of this version holds what was put into it.
pub proof fn cache_document_holds(bytes: Seq<u8>, version: u8, name: Seq<char>, payload: JsonView)
    requires
        name != "schema_version"@,
    ensures
        written_as(bytes, cache_document(version, name, payload)) ==> file_payload(
            bytes,
            version,
            name,
        ) == Some(payload),
        (readable(payload) && exact_within(payload, (MAX_NESTING - 1) as nat))
            ==> object_reads_back(cache_document(version, name, payload)),
{
    let members = cache_document(version, name, payload)->Object_0;
    if written_as(bytes, cache_document(version, name, payload)) {
        written_field(bytes, members, 0);
        written_field(bytes, members, 1);
    }
    reveal_with_fuel(readable, 2);
    reveal_with_fuel(exact_within, 2);
    if readable(payload) && exact_within(payload, (MAX_NESTING - 1) as nat) {
        assert forall|i: int| #![trigger members[i]] 0 <= i < members.len() implies readable(
            members[i].1,
        ) && exact_within(members[i].1, (MAX_NESTING - 1) as nat) by {}
    }
}

/// A copy of tools.
fn copy_tools(tools: &Vec<ToolInfo>) -> (copy: Vec<ToolInfo>)
    ensures
        tool_views(copy@) == tool_views(tools@),
{
    let mut copy: Vec<ToolInfo> = Vec::new();
    let mut i: usize = 0;
    while i < tools.len()
        invariant
            i <= tools@.len(),
            copy@.len() == i,
            forall|j: int|
                #![trigger copy@[j]]
                0 <= j < i ==> copy@[j].document@ == tools@[j].document@,
        decreases tools@.len() - i,
    {
        copy.push(ToolInfo { document: tools[i].document.duplicate() });
        i = i + 1;
    }
    assert(tool_views(copy@) =~= tool_views(tools@));
    copy
}

/// The list of the tools' documents.
fn tools_value(tools: &Vec<ToolInfo>) -> (value: JsonValue)
    ensures
        value@ == JsonView::Array(tool_views(tools@)),
{
    let mut items: Vec<JsonValue> = Vec::new();
    let mut i: usize = 0;
    while i < tools.len()
        invariant
            i <= tools@.len(),
            items@.len() == i,
            forall|j: int| #![trigger items@[j]] 0 <= j < i ==> items@[j]@ == tools@[j].document@,
        decreases tools@.len() - i,
    {
        items.push(tools[i].document.duplicate());
        i = i + 1;
    }
    let value = JsonValue::Array(items);
    assert(value@->Array_0 =~= tool_views(tools@));
    value
}

/// The bytes of a tool cache file.
pub fn encode_tools_cache(tools: &Vec<ToolInfo>) -> (bytes: Vec<u8>)
    ensures
        bytes@ == json_pretty(tools_document(tool_views(tools@))),
        (forall|i: int|
            #![trigger tools@[i]]
            0 <= i < tools@.len() ==> keepable(tools@[i].document@)) ==> written_as(
            bytes@,
            tools_document(tool_views(tools@)),
        ),
{
    let value = tools_value(tools);
    let document = pair(
        "schema_version",
        JsonValue::Number(JsonNumber::Unsigned(CODEX_APPS_TOOLS_CACHE_SCHEMA_VERSION as u64)),
        "tools",
        value,
    );
    proof {
        reveal_strlit("schema_version");
        reveal_strlit("tools");
        assert("schema_version"@.len() == 14 && "tools"@.len() == 5);
        let views = tool_views(tools@);
        cache_document_holds(
            Seq::empty(),
            CODEX_APPS_TOOLS_CACHE_SCHEMA_VERSION,
            "tools"@,
            JsonView::Array(views),
        );
        if forall|i: int|
            #![trigger tools@[i]]
            0 <= i < tools@.len() ==> keepable(tools@[i].document@) {
            assert forall|i: int| #![trigger views[i]] 0 <= i < views.len() implies readable(
                views[i],
            ) && exact_within(views[i], (MAX_NESTING - 2) as nat) by {
                assert(keepable(tools@[i].document@));
            }
        }
    }
    write_json_pretty(&document)
}

/// The bytes of a server info cache file.
pub fn encode_server_info_cache(server_info: &McpServerInfo) -> (bytes: Vec<u8>)
    ensures
        bytes@ == json_pretty(server_info_document(server_info.document@)),
        (readable(server_info.document@) && exact_within(
            server_info.document@,
            (MAX_NESTING - 1) as nat,
        )) ==> written_as(bytes@, server_info_document(server_info.document@)),
{
    let document = pair(
        "schema_version",
        JsonValue::Number(JsonNumber::Unsigned(CODEX_APPS_SERVER_INFO_CACHE_SCHEMA_VERSION as u64)),
        "server_info",
        server_info.document.duplicate(),
    );
    proof {
        reveal_strlit("schema_version");
        reveal_strlit("server_info");
        assert("schema_version"@.len() == 14 && "server_info"@.len() == 11);
        cache_document_holds(
            Seq::empty(),
            CODEX_APPS_SERVER_INFO_CACHE_SCHEMA_VERSION,
            "server_info"@,
            server_info.document@,
        );
    }
    write_json_pretty(&document)
}

/// What the second field of a cache file is, if the first one names this version.
pub fn payload_of(found: &JsonValue, payload: JsonValue, version: u8) -> (result: Option<JsonValue>)
    ensures
        cached_payload(found@, payload@, version) == (match result {
            Some(result) => Some(result@),
            None => None,
        }),
{
    match found {
        JsonValue::Number(JsonNumber::Unsigned(number)) => {
            if *number == version as u64 {
                Some(payload)
            } else {
                None
            }
        },
        _ => None,
    }
}

/// What the bytes of a cache file hold, if it is one of this version.
fn payload_in(bytes: &[u8], version: u8, name: &str) -> (payload: Option<JsonValue>)
    ensures
        file_payload(bytes@, version, name@) == (match payload {
            Some(payload) => Some(payload@),
            None => None,
        }),
{
    if skim_json_object(bytes) {
        return match (read_field(bytes, "schema_version"), read_field(bytes, name)) {
            (Some(found), Some(payload)) => payload_of(&found, payload, version),
            _ => None,
        };
    }
    match read_json_bytes(bytes) {
        Some(JsonValue::Array(items)) => {
            if items.len() == 2 {
                let ghost list = JsonValue::Array(items)@;
                assert(list->Array_0[0] == items@[0]@);
                assert(list->Array_0[1] == items@[1]@);
                payload_of(&items[0], items[1].duplicate(), version)
            } else {
                None
            }
        },
        _ => None,
    }
}

/// The tools that the bytes of a tool cache file hold, if each of them is decoded as one.
pub fn decode_tools_cache<D: Fn(JsonValue) -> Option<ToolInfo>>(bytes: &[u8], decode: &D) -> (tools:
    Option<Vec<ToolInfo>>)
    requires
        forall|value: JsonValue| call_requires(*decode, (value,)),
    ensures
        tools_file_answers(bytes@, *decode, tools),
{
    let items = match payload_in(bytes, CODEX_APPS_TOOLS_CACHE_SCHEMA_VERSION, "tools") {
        Some(JsonValue::Array(items)) => items,
        _ => {
            return None;
        },
    };
    let ghost documents = JsonValue::Array(items)@->Array_0;
    let mut tools: Vec<ToolInfo> = Vec::new();
    let mut i: usize = 0;
    while i < items.len()
        invariant
            i <= items@.len(),
            tools@.len() == i,
            documents.len() == items@.len(),
            documents == JsonValue::Array(items)@->Array_0,
            cached_tools(bytes@) == Some(documents),
            forall|value: JsonValue| call_requires(*decode, (value,)),
            forall|j: int|
                #![trigger tools@[j]]
                0 <= j < i ==> decodes(*decode, documents[j], Some(tools@[j])),
        decreases items@.len() - i,
    {
        let value = items[i].duplicate();
        assert(documents[i as int] == value@);
        let decoded = decode(value);
        assert(decodes(*decode, documents[i as int], decoded));
        match decoded {
            Some(tool) => {
                tools.push(tool);
            },
            None => {
                return None;
            },
        }
        i = i + 1;
    }
    Some(tools)
}

/// The server info that the bytes of a server info cache file hold, if it is decoded as one.
pub fn decode_server_info_cache<D: Fn(JsonValue) -> Option<McpServerInfo>>(
    bytes: &[u8],
    decode: &D,
) -> (server_info: Option<McpServerInfo>)
    requires
        forall|value: JsonValue| call_requires(*decode, (value,)),
    ensures
        server_info_file_answers(bytes@, *decode, server_info),
{
    match payload_in(bytes, CODEX_APPS_SERVER_INFO_CACHE_SCHEMA_VERSION, "server_info") {
        Some(document) => decode(document),
        None => None,
    }
}

// The live entries.

/// Live state of one catalog.
#[derive(Debug, PartialEq, Eq)]
pub struct CodexAppsToolsCacheEntry {
    pub identity: CodexAppsToolsCacheIdentity,
    pub current_tools: Option<Vec<ToolInfo>>,
    pub next_fetch_generation: u64,
    pub last_accepted_generation: u64,
}

/// An entry as contracts speak of it.
pub struct EntryView {
    pub identity: IdentityView,
    pub current_tools: Option<Seq<JsonView>>,
    pub next_fetch_generation: u64,
    pub last_accepted_generation: u64,
}

impl View for CodexAppsToolsCacheEntry {
    type V = EntryView;

    open spec fn view(&self) -> EntryView {
        EntryView {
            identity: self.identity@,
            current_tools: tools_view(self.current_tools),
            next_fetch_generation: self.next_fetch_generation,
            last_accepted_generation: self.last_accepted_generation,
        }
    }
}

/// A file to be written below the home.
#[derive(Debug, PartialEq, Eq)]
pub struct CacheFile {
    pub path: CachePath,
    pub bytes: Vec<u8>,
}

/// What comes of a finished fetch.
#[derive(Debug, PartialEq, Eq)]
pub enum Publication {
    /// A later fetch was accepted before; the tools to go on with.
    Stale { tools: Vec<ToolInfo> },
    /// The tools are the current ones, and the files are to be written.
    Published { tools: Vec<ToolInfo>, tools_file: CacheFile, server_info_file: CacheFile },
}

/// Whether a fetch of this generation is accepted.
pub open spec fn accepts(entry: EntryView, generation: u64) -> bool {
    generation > entry.last_accepted_generation
}

/// An entry after a fetch of this generation has brought these tools.
pub open spec fn published(entry: EntryView, generation: u64, tools: Seq<JsonView>) -> EntryView {
    if accepts(entry, generation) {
        EntryView {
            current_tools: Some(tools),
            last_accepted_generation: generation,
            ..entry
        }
    } else {
        entry
    }
}

/// What the fetcher goes on with: its own tools if they were accepted or there are no others,
/// else the current ones.
pub open spec fn tools_to_use(
    entry: EntryView,
    generation: u64,
    tools: Seq<JsonView>,
) -> Seq<JsonView> {
    match entry.current_tools {
        Some(current) if !accepts(entry, generation) => current,
        _ => tools,
    }
}

impl CodexAppsToolsFetchSource {
    /// The name of the source in metrics.
    pub fn as_str(self) -> (name: &'static str)
        ensures
            name@ == (match self {
                CodexAppsToolsFetchSource::Startup => "startup"@,
                CodexAppsToolsFetchSource::HardRefresh => "hard_refresh"@,
            }),
    {
        match self {
            CodexAppsToolsFetchSource::Startup => "startup",
            CodexAppsToolsFetchSource::HardRefresh => "hard_refresh",
        }
    }
}

/// The status of a cache write in metrics: success needs both files.
pub fn cache_write_status(tools_written: bool, server_info_written: bool) -> (status: &'static str)
    ensures
        status@ == (if tools_written && server_info_written {
            "success"@
        } else {
            "failure"@
        }),
{
    if tools_written && server_info_written {
        "success"
    } else {
        "failure"
    }
}

impl CodexAppsToolsCacheEntry {
    /// A new entry with the tools that its cache file held, if it held any.
    pub fn new(identity: CodexAppsToolsCacheIdentity, loaded_tools: Option<Vec<ToolInfo>>) -> (entry:
        Self)
        ensures
            entry@ == (EntryView {
                identity: identity@,
                current_tools: tools_view(loaded_tools),
                next_fetch_generation: 0,
                last_accepted_generation: 0,
            }),
            generations_in_order(entry@),
    {
        CodexAppsToolsCacheEntry {
            identity,
            current_tools: loaded_tools,
            next_fetch_generation: 0,
            last_accepted_generation: 0,
        }
    }

    /// The file of the entry's tools.
    pub fn tools_cache_path(&self) -> (path: CachePath)
        ensures
            path.directory@ == CODEX_APPS_TOOLS_CACHE_DIR@,
            path.file_name@ == cache_file_name(self@.identity),
    {
        self.identity.cache_path_in(CODEX_APPS_TOOLS_CACHE_DIR)
    }

    /// The file of the entry's server info.
    pub fn server_info_cache_path(&self) -> (path: CachePath)
        ensures
            path.directory@ == CODEX_APPS_SERVER_INFO_CACHE_DIR@,
            path.file_name@ == cache_file_name(self@.identity),
    {
        self.identity.cache_path_in(CODEX_APPS_SERVER_INFO_CACHE_DIR)
    }

    /// A copy of the current tools.
    pub fn current_tools(&self) -> (tools: Option<Vec<ToolInfo>>)
        ensures
            tools_view(tools) == self@.current_tools,
    {
        match &self.current_tools {
            Some(tools) => Some(copy_tools(tools)),
            None => None,
        }
    }

    /// Whether there are current tools.
    pub fn has_current_tools(&self) -> (found: bool)
        ensures
            found == (self@.current_tools is Some),
    {
        self.current_tools.is_some()
    }

    /// Begins a fetch, which is later than every fetch begun before.
    pub fn begin_fetch(&mut self, source: CodexAppsToolsFetchSource) -> (ticket:
        CodexAppsToolsFetchTicket)
        requires
            old(self)@.next_fetch_generation < u64::MAX,
        ensures
            ticket.generation == old(self)@.next_fetch_generation + 1,
            ticket.source == source,
            final(self)@ == (EntryView {
                next_fetch_generation: ticket.generation,
                ..old(self)@
            }),
    {
        self.next_fetch_generation = self.next_fetch_generation + 1;
        CodexAppsToolsFetchTicket { generation: self.next_fetch_generation, source }
    }

    /// Takes the tools that a fetch brought, unless a later fetch was accepted before.
    pub fn publish_if_newest_accepted(
        &mut self,
        ticket: CodexAppsToolsFetchTicket,
        server_info: &McpServerInfo,
        tools: Vec<ToolInfo>,
    ) -> (publication: Publication)
        ensures
            final(self)@ == published(old(self)@, ticket.generation, tool_views(tools@)),
            publication is Stale <==> ticket.generation <= old(self)@.last_accepted_generation,
            match publication {
                Publication::Stale { tools: to_use } => {
                    &&& !accepts(old(self)@, ticket.generation)
                    &&& tool_views(to_use@) == tools_to_use(
                        old(self)@,
                        ticket.generation,
                        tool_views(tools@),
                    )
                    &&& old(self)@.current_tools is Some ==> Some(tool_views(to_use@))
                        == old(self)@.current_tools
                },
                Publication::Published { tools: to_use, tools_file, server_info_file } => {
                    &&& accepts(old(self)@, ticket.generation)
                    &&& tool_views(to_use@) == tool_views(tools@)
                    &&& tools_file.path.directory@ == CODEX_APPS_TOOLS_CACHE_DIR@
                    &&& tools_file.path.file_name@ == cache_file_name(old(self)@.identity)
                    &&& tools_file.bytes@ == json_pretty(tools_document(tool_views(tools@)))
                    &&& server_info_file.path.directory@ == CODEX_APPS_SERVER_INFO_CACHE_DIR@
                    &&& server_info_file.path.file_name@ == cache_file_name(old(self)@.identity)
                    &&& server_info_file.bytes@ == json_pretty(
                        server_info_document(server_info.document@),
                    )
                },
            },
    {
        if ticket.generation <= self.last_accepted_generation {
            return match self.current_tools() {
                Some(current) => Publication::Stale { tools: current },
                None => Publication::Stale { tools },
            };
        }
        self.last_accepted_generation = ticket.generation;
        self.current_tools = Some(copy_tools(&tools));
        let tools_file = CacheFile {
            path: self.tools_cache_path(),
            bytes: encode_tools_cache(&tools),
        };
        let server_info_file = CacheFile {
            path: self.server_info_cache_path(),
            bytes: encode_server_info_cache(server_info),
        };
        Publication::Published { tools, tools_file, server_info_file }
    }
}

/// The server info file to read at startup: that of the entry, for the Codex Apps server only.
pub fn startup_server_info_path(
    server_name: &str,
    codex_apps_server_name: &str,
    entry: Option<&CodexAppsToolsCacheEntry>,
) -> (path: Option<CachePath>)
    ensures
        path is Some <==> server_name@ == codex_apps_server_name@ && entry is Some,
        path matches Some(path) ==> path.directory@ == CODEX_APPS_SERVER_INFO_CACHE_DIR@
            && path.file_name@ == cache_file_name(entry->0@.identity),
{
    if !same_text(server_name, codex_apps_server_name) {
        return None;
    }
    match entry {
        Some(entry) => Some(entry.server_info_cache_path()),
        None => None,
    }
}

// The registry.

/// Process-scoped registry for shared Codex Apps raw tool snapshots.
///
/// Entries load disk only while they are created. Later reads use memory, so active entries do
/// not adopt another process's disk writes.
#[derive(Debug, PartialEq, Eq)]
pub struct CodexAppsToolsCache {
    pub entries: Vec<CodexAppsToolsCacheEntry>,
}

/// Where an entry of the registry stands, which does not change.
#[derive(Debug, Clone, Copy, PartialEq, Eq)]
pub struct CodexAppsToolsCacheContext {
    pub index: usize,
}

/// What to do for the context of a catalog.
#[derive(Debug, PartialEq, Eq)]
pub enum CodexAppsToolsContextStep {
    /// The entry is there.
    Ready(CodexAppsToolsCacheContext),
    /// There is none: read the file, then add the entry with the tools that it holds.
    Load { identity: CodexAppsToolsCacheIdentity, path: CachePath },
}

impl View for CodexAppsToolsCache {
    type V = Seq<EntryView>;

    open spec fn view(&self) -> Seq<EntryView> {
        Seq::new(self.entries@.len(), |i: int| self.entries@[i]@)
    }
}

/// Whether an entry is for this identity.
pub open spec fn entry_for(entries: Seq<EntryView>, identity: IdentityView, at: int) -> bool {
    0 <= at < entries.len() && same_identity(entries[at].identity, identity)
}

/// Whether there is no entry for this identity.
pub open spec fn no_entry_for(entries: Seq<EntryView>, identity: IdentityView) -> bool {
    forall|at: int| !#[trigger] entry_for(entries, identity, at)
}

/// No two entries are for one identity.
pub open spec fn entries_distinct(entries: Seq<EntryView>) -> bool {
    forall|i: int, j: int|
        #![trigger entries[i], entries[j]]
        0 <= i < j < entries.len() ==> !same_identity(entries[i].identity, entries[j].identity)
}

impl CodexAppsToolsCache {
    /// A registry without entries.
    pub fn new() -> (cache: Self)
        ensures
            cache@ == Seq::<EntryView>::empty(),
            entries_distinct(cache@),
    {
        let cache = CodexAppsToolsCache { entries: Vec::new() };
        assert(cache@ =~= Seq::<EntryView>::empty());
        cache
    }

    /// The entry of an identity.
    pub fn find_entry(&self, identity: &CodexAppsToolsCacheIdentity) -> (found: Option<
        CodexAppsToolsCacheContext,
    >)
        ensures
            match found {
                Some(context) => entry_for(self@, identity@, context.index as int),
                None => no_entry_for(self@, identity@),
            },
    {
        let mut i: usize = 0;
        while i < self.entries.len()
            invariant
                i <= self.entries@.len(),
                forall|at: int| at < i ==> !#[trigger] entry_for(self@, identity@, at),
            decreases self.entries@.len() - i,
        {
            if self.entries[i].identity.matches(identity) {
                assert(entry_for(self@, identity@, i as int));
                return Some(CodexAppsToolsCacheContext { index: i });
            }
            i = i + 1;
        }
        None
    }

    /// The context of a catalog: its entry, or the file to create it from.
    pub fn context(
        &self,
        codex_home: HostPath,
        auth_key: CodexAppsToolsCacheKey,
        source: &CodexAppsCatalogSource,
        resolved_bearer_token: Option<&str>,
    ) -> (step: CodexAppsToolsContextStep)
        ensures
            ({
                let wanted = identity_of(
                    codex_home@,
                    auth_key@,
                    source.environment_id@,
                    source.transport@,
                    lent_view(resolved_bearer_token),
                );
                match step {
                    CodexAppsToolsContextStep::Ready(context) => entry_for(
                        self@,
                        wanted,
                        context.index as int,
                    ),
                    CodexAppsToolsContextStep::Load { identity, path } => {
                        &&& no_entry_for(self@, wanted)
                        &&& identity@ == wanted
                        &&& path.directory@ == CODEX_APPS_TOOLS_CACHE_DIR@
                        &&& path.file_name@ == cache_file_name(wanted)
                    },
                }
            }),
    {
        let identity = CodexAppsToolsCacheIdentity::new(
            codex_home,
            auth_key,
            source,
            resolved_bearer_token,
        );
        match self.find_entry(&identity) {
            Some(context) => CodexAppsToolsContextStep::Ready(context),
            None => {
                let path = identity.cache_path_in(CODEX_APPS_TOOLS_CACHE_DIR);
                CodexAppsToolsContextStep::Load { identity, path }
            },
        }
    }

    /// Adds the entry of an identity with the tools that its cache file held. An entry that is
    /// there stays as it is and takes nothing from disk.
    pub fn add_entry(
        &mut self,
        identity: CodexAppsToolsCacheIdentity,
        loaded_tools: Option<Vec<ToolInfo>>,
    ) -> (context: CodexAppsToolsCacheContext)
        ensures
            entry_for(final(self)@, identity@, context.index as int),
            !no_entry_for(old(self)@, identity@) ==> final(self)@ == old(self)@,
            no_entry_for(old(self)@, identity@) ==> final(self)@ == old(self)@.push(
                EntryView {
                    identity: identity@,
                    current_tools: tools_view(loaded_tools),
                    next_fetch_generation: 0,
                    last_accepted_generation: 0,
                },
            ),
            entries_distinct(old(self)@) ==> entries_distinct(final(self)@),
    {
        match self.find_entry(&identity) {
            Some(context) => context,
            None => {
                let index = self.entries.len();
                let ghost wanted = identity@;
                let ghost before = self@;
                self.entries.push(CodexAppsToolsCacheEntry::new(identity, loaded_tools));
                proof {
                    assert(self@ =~= before.push(
                        EntryView {
                            identity: wanted,
                            current_tools: tools_view(loaded_tools),
                            next_fetch_generation: 0,
                            last_accepted_generation: 0,
                        },
                    ));
                    assert forall|i: int, j: int|
                        #![trigger self@[i], self@[j]]
                        entries_distinct(before) && 0 <= i < j < self@.len() implies !same_identity(
                        self@[i].identity,
                        self@[j].identity,
                    ) by {
                        if j < before.len() {
                            assert(!same_identity(before[i].identity, before[j].identity));
                        } else {
                            assert(!entry_for(before, wanted, i));
                        }
                    }
                }
                CodexAppsToolsCacheContext { index }
            },
        }
    }
}

// What holds of every cache.

/// What was written to a tool cache file comes back from it, if the text of its document does and
/// the decoder knows its own tools again.
pub proof fn written_tools_come_back<D: Fn(JsonValue) -> Option<ToolInfo>>(
    tools: Seq<ToolInfo>,
    bytes: Seq<u8>,
    decode: D,
    result: Option<Vec<ToolInfo>>,
)
    requires
        written_as(bytes, tools_document(tool_views(tools))),
        forall|i: int, decoded: Option<ToolInfo>|
            0 <= i < tools.len() && #[trigger] decodes(decode, tools[i].document@, decoded)
                ==> decoded is Some && decoded->0.document@ == tools[i].document@,
        tools_file_answers(bytes, decode, result),
    ensures
        tools_view(result) == Some(tool_views(tools)),
{
    reveal_strlit("schema_version");
    reveal_strlit("tools");
    assert("schema_version"@.len() == 14 && "tools"@.len() == 5);
    let documents = tool_views(tools);
    cache_document_holds(
        bytes,
        CODEX_APPS_TOOLS_CACHE_SCHEMA_VERSION,
        "tools"@,
        JsonView::Array(documents),
    );
    assert(cached_tools(bytes) == Some(documents));
    match result {
        Some(read) => {
            assert forall|i: int| 0 <= i < documents.len() implies tool_views(read@)[i]
                == #[trigger] documents[i] by {
                assert(decodes(decode, tools[i].document@, Some(read@[i])));
            }
            assert(tool_views(read@) =~= documents);
        },
        None => {
            let i = choose|i: int|
                0 <= i < documents.len() && decodes(
                    decode,
                    #[trigger] documents[i],
                    None::<ToolInfo>,
                );
            assert(decodes(decode, tools[i].document@, None::<ToolInfo>));
        },
    }
}

/// What was written to a server info cache file comes back from it, if the text of its document does
/// and the decoder knows its own server info again.
pub proof fn written_server_info_comes_back<D: Fn(JsonValue) -> Option<McpServerInfo>>(
    server_info: McpServerInfo,
    bytes: Seq<u8>,
    decode: D,
    result: Option<McpServerInfo>,
)
    requires
        written_as(bytes, server_info_document(server_info.document@)),
        forall|decoded: Option<McpServerInfo>| #[trigger]
            decodes(decode, server_info.document@, decoded) ==> decoded is Some
                && decoded->0.document@ == server_info.document@,
        server_info_file_answers(bytes, decode, result),
    ensures
        result is Some,
        result->0.document@ == server_info.document@,
{
    reveal_strlit("schema_version");
    reveal_strlit("server_info");
    assert("schema_version"@.len() == 14 && "server_info"@.len() == 11);
    cache_document_holds(
        bytes,
        CODEX_APPS_SERVER_INFO_CACHE_SCHEMA_VERSION,
        "server_info"@,
        server_info.document@,
    );
}

/// A tool cache file that cannot be read, or whose version is another one, holds nothing.
pub proof fn other_files_hold_nothing<D: Fn(JsonValue) -> Option<ToolInfo>>(
    bytes: Seq<u8>,
    decode: D,
    result: Option<Vec<ToolInfo>>,
)
    requires
        tools_file_answers(bytes, decode, result),
        if json_skims(bytes) {
            field_in(bytes, "schema_version"@) != Some(
                JsonView::Number(
                    JsonNumberView::Unsigned(CODEX_APPS_TOOLS_CACHE_SCHEMA_VERSION as u64),
                ),
            )
        } else {
            json_parse_bytes(bytes) is None
        },
    ensures
        result is None,
{
}

/// A fetch that is overtaken by a later one that was accepted changes nothing any more.
pub proof fn overtaken_fetch_changes_nothing(
    entry: EntryView,
    late: u64,
    late_tools: Seq<JsonView>,
    early: u64,
    early_tools: Seq<JsonView>,
)
    requires
        early <= late,
    ensures
        published(published(entry, late, late_tools), early, early_tools) == published(
            entry,
            late,
            late_tools,
        ),
{
}

/// An entry after a series of fetches has come in, in this order.
pub open spec fn published_all(entry: EntryView, fetches: Seq<(u64, Seq<JsonView>)>) -> EntryView
    decreases fetches.len(),
{
    if fetches.len() == 0 {
        entry
    } else {
        published(
            published_all(entry, fetches.drop_last()),
            fetches.last().0,
            fetches.last().1,
        )
    }
}

/// In whatever order fetches come in, the accepted generation never falls, and the current tools
/// are those of the latest of them, once any is later than what was accepted before.
pub proof fn latest_fetch_wins(
    entry: EntryView,
    fetches: Seq<(u64, Seq<JsonView>)>,
    latest: int,
)
    requires
        0 <= latest < fetches.len(),
        accepts(entry, fetches[latest].0),
        forall|i: int|
            #![trigger fetches[i]]
            0 <= i < fetches.len() && i != latest ==> fetches[i].0 < fetches[latest].0,
    ensures
        published_all(entry, fetches) == (EntryView {
            current_tools: Some(fetches[latest].1),
            last_accepted_generation: fetches[latest].0,
            ..entry
        }),
    decreases fetches.len(),
{
    let rest = fetches.drop_last();
    if latest < rest.len() {
        assert forall|i: int|
            #![trigger rest[i]]
            0 <= i < rest.len() && i != latest implies rest[i].0 < rest[latest].0 by {
            assert(fetches[i].0 < fetches[latest].0);
        }
        latest_fetch_wins(entry, rest, latest);
        assert(fetches[fetches.len() - 1].0 < fetches[latest].0);
    } else {
        earlier_fetches_stay_below(entry, rest, fetches[latest].0);
    }
}

/// Fetches below a generation leave the accepted generation below it.
proof fn earlier_fetches_stay_below(
    entry: EntryView,
    fetches: Seq<(u64, Seq<JsonView>)>,
    bound: u64,
)
    requires
        entry.last_accepted_generation < bound,
        forall|i: int| #![trigger fetches[i]] 0 <= i < fetches.len() ==> fetches[i].0 < bound,
    ensures
        published_all(entry, fetches).last_accepted_generation < bound,
        published_all(entry, fetches).last_accepted_generation >= entry.last_accepted_generation,
        published_all(entry, fetches).identity == entry.identity,
        published_all(entry, fetches).next_fetch_generation == entry.next_fetch_generation,
    decreases fetches.len(),
{
    if fetches.len() > 0 {
        let rest = fetches.drop_last();
        assert forall|i: int| #![trigger rest[i]] 0 <= i < rest.len() implies rest[i].0 < bound by {
            assert(fetches[i].0 < bound);
        }
        earlier_fetches_stay_below(entry, rest, bound);
        assert(fetches[fetches.len() - 1].0 < bound);
    }
}

/// Whether no fetch was accepted that was not begun.
pub open spec fn generations_in_order(entry: EntryView) -> bool {
    entry.last_accepted_generation <= entry.next_fetch_generation
}

/// As long as only fetches that were begun come in, a fetch that is begun next is later than all
/// that were accepted, so it is accepted unless one begun after it comes in first.
pub proof fn next_fetch_is_accepted(entry: EntryView, generation: u64, tools: Seq<JsonView>)
    requires
        generations_in_order(entry),
        generation <= entry.next_fetch_generation,
    ensures
        generations_in_order(published(entry, generation, tools)),
        entry.next_fetch_generation < u64::MAX ==> accepts(
            published(entry, generation, tools),
            (entry.next_fetch_generation + 1) as u64,
        ),
{
}

/// With a bearer token the account does not matter.
pub proof fn bearer_token_outranks_account(a: KeyView, b: KeyView, token: Seq<char>)
    ensures
        principal_of(a, Some(token)) == principal_of(b, Some(token)),
        principal_of(a, Some(token)) != principal_of(b, None),
{
}

/// The fingerprint of a catalog source does not depend on the order of object members in its
/// transport.
pub proof fn source_fingerprint_ignores_order(
    environment_id: Seq<char>,
    left: JsonView,
    right: JsonView,
)
    requires
        same_but_order(left, right),
    ensures
        source_fingerprint(environment_id, left) == source_fingerprint(environment_id, right),
{
    reveal_strlit("environment_id");
    reveal_strlit("transport");
    assert("environment_id"@.len() == 14 && "transport"@.len() == 9);
    let a = source_document(environment_id, left);
    let b = source_document(environment_id, right);
    let x = a->Object_0;
    let y = b->Object_0;
    position_is(x, "environment_id"@, 0);
    position_is(x, "transport"@, 1);
    position_is(y, "environment_id"@, 0);
    position_is(y, "transport"@, 1);
    reveal_with_fuel(same_but_order, 2);
    assert(same_but_order(a, b));
    canonical_ignores_order(a, b);
}

/// The text of a catalog source tells it apart from every other one: the environment, and the
/// transport but for the order of object members.
pub proof fn source_text_tells_apart(
    environment_id: Seq<char>,
    transport: JsonView,
    other_environment_id: Seq<char>,
    other_transport: JsonView,
)
    requires
        readable(transport),
        readable(other_transport),
        source_reads_back(environment_id, transport),
        source_reads_back(other_environment_id, other_transport),
        source_text(environment_id, transport) == source_text(
            other_environment_id,
            other_transport,
        ),
    ensures
        environment_id == other_environment_id,
        same_but_order(transport, other_transport),
{
    let a = source_document(environment_id, transport);
    let b = source_document(other_environment_id, other_transport);
    source_document_reads_back(environment_id, transport);
    source_document_reads_back(other_environment_id, other_transport);
    canonical_tells_apart(a, b);
    let x = a->Object_0;
    let y = b->Object_0;
    reveal_strlit("environment_id");
    reveal_strlit("transport");
    assert("environment_id"@.len() == 14 && "transport"@.len() == 9);
    reveal_with_fuel(same_but_order, 2);
    position_is(y, "environment_id"@, 0);
    position_is(y, "transport"@, 1);
    assert(same_but_order(x[0].1, lookup(y, x[0].0)->0));
    assert(same_but_order(x[1].1, lookup(y, x[1].0)->0));
}

/// Catalogs share an entry just if they have the same home, the same source but for the order of
/// object members, and either the same bearer token, whatever their accounts, or no token and the
/// same account, as far as fingerprints differ where their texts do.
pub proof fn catalogs_share_just_if_alike(
    home: HostPathView,
    key: KeyView,
    environment_id: Seq<char>,
    transport: JsonView,
    token: Option<Seq<char>>,
    other_home: HostPathView,
    other_key: KeyView,
    other_environment_id: Seq<char>,
    other_transport: JsonView,
    other_token: Option<Seq<char>>,
)
    requires
        readable(transport),
        readable(other_transport),
        source_reads_back(environment_id, transport),
        source_reads_back(other_environment_id, other_transport),
        source_fingerprint(environment_id, transport) == source_fingerprint(
            other_environment_id,
            other_transport,
        ) ==> source_text(environment_id, transport) == source_text(
            other_environment_id,
            other_transport,
        ),
        token is Some && other_token is Some && fingerprint(token->0) == fingerprint(
            other_token->0,
        ) ==> token == other_token,
    ensures
        same_identity(
            identity_of(home, key, environment_id, transport, token),
            identity_of(
                other_home,
                other_key,
                other_environment_id,
                other_transport,
                other_token,
            ),
        ) <==> {
            &&& home.normal == other_home.normal
            &&& environment_id == other_environment_id
            &&& same_but_order(transport, other_transport)
            &&& token == other_token
            &&& token is None ==> key == other_key
        },
{
    if source_fingerprint(environment_id, transport) == source_fingerprint(
        other_environment_id,
        other_transport,
    ) {
        source_text_tells_apart(
            environment_id,
            transport,
            other_environment_id,
            other_transport,
        );
    }
    if environment_id == other_environment_id && same_but_order(transport, other_transport) {
        source_fingerprint_ignores_order(environment_id, transport, other_transport);
    }
}

/// Where entries are distinct, two identities have the same entry just if they are the same.
pub proof fn one_entry_per_identity(
    entries: Seq<EntryView>,
    a: IdentityView,
    b: IdentityView,
    at: int,
    there: int,
)
    requires
        entries_distinct(entries),
        entry_for(entries, a, at),
        entry_for(entries, b, there),
    ensures
        at == there <==> same_identity(a, b),
{
    assert(at < there ==> !same_identity(entries[at].identity, entries[there].identity));
    assert(there < at ==> !same_identity(entries[there].identity, entries[at].identity));
}

/// The text of an identity tells it apart from every other one: the home as it is written, the
/// principal and the source. Texts that differ have file names that differ, as far as their
/// fingerprints do.
pub proof fn identity_text_tells_apart(a: IdentityView, b: IdentityView)
    requires
        text_reads_back(a),
        text_reads_back(b),
        identity_text(a) == identity_text(b),
    ensures
        a.codex_home.text == b.codex_home.text,
        a.catalog_principal == b.catalog_principal,
        a.catalog_source_fingerprint == b.catalog_source_fingerprint,
{
    let x = identity_document(a)->Object_0;
    let y = identity_document(b)->Object_0;
    assert(x == y);
    assert(x[0] == y[0] && x[1] == y[1] && x[2] == y[2]);
    let p = principal_document(a.catalog_principal)->Object_0;
    let q = principal_document(b.catalog_principal)->Object_0;
    assert(p[0] == q[0]);
    match (a.catalog_principal, b.catalog_principal) {
        (PrincipalView::CodexAuth(_), PrincipalView::CodexAuth(_)) => {
            let f = p[0].1->Object_0;
            let g = q[0].1->Object_0;
            assert(f[0] == g[0] && f[1] == g[1] && f[2] == g[2]);
        },
        (
            PrincipalView::EnvBearerTokenFingerprint(_),
            PrincipalView::EnvBearerTokenFingerprint(_),
        ) => {},
        _ => {
            reveal_strlit("CodexAuth");
            reveal_strlit("EnvBearerTokenFingerprint");
            assert("CodexAuth"@.len() == 9 && "EnvBearerTokenFingerprint"@.len() == 25);
        },
    }
}

// What comes of fetches, files and identities, said of what went in.

/// A fetch whose generation is not above the last accepted one changes nothing, and where the entry has
/// current tools, the fetcher goes on with exactly those, whatever list it brought itself. Only where
/// there are none does it go on with its own.
pub proof fn stale_fetch_goes_on_with_current_tools(
    entry: EntryView,
    generation: u64,
    tools: Seq<JsonView>,
)
    requires
        generation <= entry.last_accepted_generation,
    ensures
        !accepts(entry, generation),
        published(entry, generation, tools) == entry,
        entry.current_tools matches Some(current) ==> tools_to_use(entry, generation, tools)
            == current,
        entry.current_tools is None ==> tools_to_use(entry, generation, tools) == tools,
{
}

/// A fetch whose generation is above the last accepted one is accepted: its tools become the current
/// ones, its generation the last accepted one, and the fetcher goes on with what it brought. Nothing
/// else of the entry changes.
pub proof fn newer_fetch_is_taken_over(entry: EntryView, generation: u64, tools: Seq<JsonView>)
    requires
        generation > entry.last_accepted_generation,
    ensures
        accepts(entry, generation),
        published(entry, generation, tools).current_tools == Some(tools),
        published(entry, generation, tools).last_accepted_generation == generation,
        published(entry, generation, tools).next_fetch_generation == entry.next_fetch_generation,
        published(entry, generation, tools).identity == entry.identity,
        tools_to_use(entry, generation, tools) == tools,
{
}

/// After an accepted fetch, every fetch that was begun no later gets the tools of that fetch, however
/// many tools it brought itself.
pub proof fn earlier_fetches_get_the_accepted_tools(
    entry: EntryView,
    late: u64,
    late_tools: Seq<JsonView>,
    early: u64,
    early_tools: Seq<JsonView>,
)
    requires
        late > entry.last_accepted_generation,
        early <= late,
    ensures
        tools_to_use(published(entry, late, late_tools), early, early_tools) == late_tools,
        published(published(entry, late, late_tools), early, early_tools).current_tools == Some(
            late_tools,
        ),
{
}

/// Contracts see tools as they are: the documents of all of them, in order.
pub proof fn tools_are_seen_as_they_are(tools: Vec<ToolInfo>, i: int)
    requires
        0 <= i < tools@.len(),
    ensures
        tool_views(tools@).len() == tools@.len(),
        tool_views(tools@)[i] == tools@[i].document@,
        tools_view(Some(tools)) == Some(tool_views(tools@)),
        tools_view(None) is None,
{
}

/// Where a bearer token was resolved, the principal is its fingerprint and nothing of the account.
/// Without one it is the account, with everything that is known of it.
pub proof fn principal_is_token_or_account(auth_key: KeyView, bearer_token: Option<Seq<char>>)
    ensures
        match (bearer_token, principal_of(auth_key, bearer_token)) {
            (Some(token), PrincipalView::EnvBearerTokenFingerprint(kept)) => kept == fingerprint(
                token,
            ),
            (None, PrincipalView::CodexAuth(kept)) => {
                &&& kept.account_id == auth_key.account_id
                &&& kept.chatgpt_user_id == auth_key.chatgpt_user_id
                &&& kept.is_workspace_account == auth_key.is_workspace_account
            },
            _ => false,
        },
{
}

/// A catalog source is written with its environment and its transport, each under its name. Its
/// fingerprint is that of the canonical text.
pub proof fn source_is_written_with_its_parts(environment_id: Seq<char>, transport: JsonView)
    ensures
        source_document(environment_id, transport) is Object,
        ({
            let members = source_document(environment_id, transport)->Object_0;
            &&& members.len() == 2
            &&& lookup(members, "environment_id"@) == Some(JsonView::Text(environment_id))
            &&& lookup(members, "transport"@) == Some(transport)
        }),
        source_fingerprint(environment_id, transport) == fingerprint(
            json_text(canonical(source_document(environment_id, transport))),
        ),
{
    reveal_strlit("environment_id");
    reveal_strlit("transport");
    assert("environment_id"@.len() == 14 && "transport"@.len() == 9);
    let members = source_document(environment_id, transport)->Object_0;
    position_is(members, "environment_id"@, 0);
    position_is(members, "transport"@, 1);
}

/// An identity is written with its home, its principal and its source, in this order and each under
/// its name.
pub proof fn identity_is_written_with_its_parts(identity: IdentityView)
    ensures
        identity_document(identity) is Object,
        ({
            let members = identity_document(identity)->Object_0;
            &&& members.len() == 3
            &&& members[0] == ("codex_home"@, JsonView::Text(identity.codex_home.text))
            &&& members[1].0 == "catalog_principal"@
            &&& members[1].1 is Object
            &&& members[1].1->Object_0.len() == 1
            &&& match identity.catalog_principal {
                PrincipalView::CodexAuth(key) => {
                    let (name, value) = members[1].1->Object_0[0];
                    &&& name == "CodexAuth"@
                    &&& value is Object
                    &&& value->Object_0.len() == 3
                    &&& value->Object_0[0].0 == "account_id"@
                    &&& value->Object_0[0].1 == match key.account_id {
                        Some(id) => JsonView::Text(id),
                        None => JsonView::Null,
                    }
                    &&& value->Object_0[1].0 == "chatgpt_user_id"@
                    &&& value->Object_0[1].1 == match key.chatgpt_user_id {
                        Some(id) => JsonView::Text(id),
                        None => JsonView::Null,
                    }
                    &&& value->Object_0[2] == (
                        "is_workspace_account"@,
                        JsonView::Bool(key.is_workspace_account),
                    )
                },
                PrincipalView::EnvBearerTokenFingerprint(token) => members[1].1->Object_0[0] == (
                    "EnvBearerTokenFingerprint"@,
                    JsonView::Text(token),
                ),
            }
            &&& members[2] == (
                "catalog_source_fingerprint"@,
                JsonView::Text(identity.catalog_source_fingerprint),
            )
        }),
{
}

/// The cache files of an identity are called after the fingerprint of its text, and end in `.json`. A
/// home that is not Unicode has no text, and all such share the name of the empty one.
pub proof fn files_are_named_by_fingerprint(identity: IdentityView)
    ensures
        ({
            let text = if identity.codex_home.unicode {
                json_text(identity_document(identity))
            } else {
                Seq::empty()
            };
            let stem = fingerprint(text);
            &&& stem.is_prefix_of(cache_file_name(identity))
            &&& cache_file_name(identity).skip(stem.len() as int) == ".json"@
        }),
{
    let text = if identity.codex_home.unicode {
        json_text(identity_document(identity))
    } else {
        Seq::empty()
    };
    let stem = fingerprint(text);
    assert(cache_file_name(identity).take(stem.len() as int) =~= stem);
    assert(cache_file_name(identity).skip(stem.len() as int) =~= ".json"@);
}

/// Tools and server info are kept in directories of their own below the home.
pub proof fn cache_directories_differ()
    ensures
        CODEX_APPS_TOOLS_CACHE_DIR@ == "cache/codex_apps_tools"@,
        CODEX_APPS_SERVER_INFO_CACHE_DIR@ == "cache/codex_apps_server_info"@,
        CODEX_APPS_TOOLS_CACHE_DIR@ != CODEX_APPS_SERVER_INFO_CACHE_DIR@,
{
    reveal_strlit("cache/codex_apps_tools");
    reveal_strlit("cache/codex_apps_server_info");
    assert("cache/codex_apps_tools"@.len() == 22 && "cache/codex_apps_server_info"@.len() == 28);
}

/// A cache file is written with the version of its format, four for tools and one for server info, and
/// with all that it is to keep, in order.
pub proof fn files_are_written_with_their_version(tools: Seq<JsonView>, server_info: JsonView)
    ensures
        tools_document(tools) == JsonView::Object(
            seq![
                ("schema_version"@, JsonView::Number(JsonNumberView::Unsigned(4))),
                ("tools"@, JsonView::Array(tools)),
            ],
        ),
        server_info_document(server_info) == JsonView::Object(
            seq![
                ("schema_version"@, JsonView::Number(JsonNumberView::Unsigned(1))),
                ("server_info"@, server_info),
            ],
        ),
{
}

/// A tool cache file holds a list of tools just if it is an object whose fields say version four and
/// give that list, or a list of the version and that list.
pub proof fn tool_files_hold_what_their_fields_say(bytes: Seq<u8>, tools: Seq<JsonView>)
    ensures
        cached_tools(bytes) == Some(tools) <==> if json_skims(bytes) {
            &&& field_in(bytes, "schema_version"@) == Some(
                JsonView::Number(JsonNumberView::Unsigned(4)),
            )
            &&& field_in(bytes, "tools"@) == Some(JsonView::Array(tools))
        } else {
            &&& json_parse_bytes(bytes) is Some
            &&& json_parse_bytes(bytes)->0 is Array
            &&& json_parse_bytes(bytes)->0->Array_0.len() == 2
            &&& json_parse_bytes(bytes)->0->Array_0[0] == JsonView::Number(
                JsonNumberView::Unsigned(4),
            )
            &&& json_parse_bytes(bytes)->0->Array_0[1] == JsonView::Array(tools)
        },
{
}

/// A server info cache file holds a server info just if it is an object whose fields say version one
/// and give that server info, or a list of the version and that server info.
pub proof fn server_info_files_hold_what_their_fields_say(bytes: Seq<u8>, server_info: JsonView)
    ensures
        cached_server_info(bytes) == Some(server_info) <==> if json_skims(bytes) {
            &&& field_in(bytes, "schema_version"@) == Some(
                JsonView::Number(JsonNumberView::Unsigned(1)),
            )
            &&& field_in(bytes, "server_info"@) == Some(server_info)
        } else {
            &&& json_parse_bytes(bytes) is Some
            &&& json_parse_bytes(bytes)->0 is Array
            &&& json_parse_bytes(bytes)->0->Array_0.len() == 2
            &&& json_parse_bytes(bytes)->0->Array_0[0] == JsonView::Number(
                JsonNumberView::Unsigned(1),
            )
            &&& json_parse_bytes(bytes)->0->Array_0[1] == server_info
        },
{
}

/// A tool cache file is read whole or not at all: where the decoder takes every tool, as many come back
/// as the file holds, each decoded from the one in its place. Where it refuses one, nothing comes back.
pub proof fn tool_files_are_read_whole<D: Fn(JsonValue) -> Option<ToolInfo>>(
    bytes: Seq<u8>,
    documents: Seq<JsonView>,
    decode: D,
    result: Option<Vec<ToolInfo>>,
    i: int,
)
    requires
        cached_tools(bytes) == Some(documents),
        tools_file_answers(bytes, decode, result),
        0 <= i < documents.len(),
    ensures
        result matches Some(tools) ==> tools@.len() == documents.len() && decodes(
            decode,
            documents[i],
            Some(tools@[i]),
        ),
        (forall|decoded: Option<ToolInfo>| #[trigger]
            decodes(decode, documents[i], decoded) ==> decoded is None) ==> result is None,
        (forall|j: int, decoded: Option<ToolInfo>|
            0 <= j < documents.len() && #[trigger] decodes(decode, documents[j], decoded)
                ==> decoded is Some) ==> result is Some,
{
    if result is Some {
        assert(decodes(decode, documents[i], Some(result->0@[i])));
    }
}

/// Two identities name one entry just if the homes have the same components and principal and source are
/// the same.
pub proof fn identities_are_told_apart_by_their_parts(a: IdentityView, b: IdentityView)
    ensures
        same_identity(a, b) <==> a.codex_home.normal == b.codex_home.normal && a.catalog_principal
            == b.catalog_principal && a.catalog_source_fingerprint == b.catalog_source_fingerprint,
{
}

/// The identity of a catalog keeps the home as it is, and has the principal and the fingerprint of the
/// source that it was asked with.
pub proof fn identity_keeps_home_and_source(
    codex_home: HostPathView,
    auth_key: KeyView,
    environment_id: Seq<char>,
    transport: JsonView,
    bearer_token: Option<Seq<char>>,
)
    ensures
        ({
            let identity = identity_of(
                codex_home,
                auth_key,
                environment_id,
                transport,
                bearer_token,
            );
            &&& identity.codex_home.text == codex_home.text
            &&& identity.codex_home.normal == codex_home.normal
            &&& identity.codex_home.unicode == codex_home.unicode
            &&& identity.catalog_principal == principal_of(auth_key, bearer_token)
            &&& identity.catalog_source_fingerprint == fingerprint(
                source_text(environment_id, transport),
            )
        }),
{
}

}
