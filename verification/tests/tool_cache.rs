use codex_runtime::apps_cache::{
    cache_write_status, codex_apps_catalog_source_fingerprint, codex_apps_tools_cache_key,
    decode_server_info_cache, decode_tools_cache, encode_server_info_cache, encode_tools_cache,
    startup_server_info_path, CachePath, CodexAppsCatalogPrincipal, CodexAppsCatalogSource,
    CodexAppsToolsCache, CodexAppsToolsCacheContext, CodexAppsToolsCacheEntry,
    CodexAppsToolsCacheIdentity, CodexAppsToolsCacheKey, CodexAppsToolsContextStep,
    CodexAppsToolsFetchSource, CodexAuth, HostPath, McpServerInfo, Publication, ToolInfo,
    payload_of,
};
use codex_runtime::json::{JsonMap, JsonNumber, JsonValue};

fn text(value: &str) -> JsonValue {
    JsonValue::Text(value.to_string())
}

fn object(members: Vec<(&str, JsonValue)>) -> JsonValue {
    JsonValue::Object(JsonMap {
        entries: members.into_iter().map(|(name, value)| (name.to_string(), value)).collect(),
    })
}

fn tool(name: &str) -> ToolInfo {
    ToolInfo { document: object(vec![("name", text(name))]) }
}

fn any_tool(document: JsonValue) -> Option<ToolInfo> {
    Some(ToolInfo { document })
}

fn any_info(document: JsonValue) -> Option<McpServerInfo> {
    Some(McpServerInfo { document })
}

fn info(name: &str) -> McpServerInfo {
    McpServerInfo { document: object(vec![("title", text(name))]) }
}

fn home(text: &str) -> HostPath {
    HostPath { text: text.to_string(), normal: text.to_string(), unicode: true }
}

fn key() -> CodexAppsToolsCacheKey {
    CodexAppsToolsCacheKey {
        account_id: Some("acct".to_string()),
        chatgpt_user_id: None,
        is_workspace_account: true,
    }
}

fn source(swapped: bool) -> CodexAppsCatalogSource {
    let url = ("url", text("https://x"));
    let list = ("a", JsonValue::Array(vec![JsonValue::Bool(true), JsonValue::Null]));
    CodexAppsCatalogSource {
        environment_id: "local".to_string(),
        transport: object(if swapped { vec![list, url] } else { vec![url, list] }),
    }
}

fn identity() -> CodexAppsToolsCacheIdentity {
    CodexAppsToolsCacheIdentity::new(home("/home/me/.codex"), key(), &source(false), None)
}

fn entry() -> CodexAppsToolsCacheEntry {
    CodexAppsToolsCacheEntry::new(identity(), None)
}

#[test]
fn the_key_of_an_account_is_what_it_says() {
    let auth = CodexAuth {
        account_id: Some("acct".to_string()),
        chatgpt_user_id: None,
        workspace_account: true,
    };
    assert_eq!(codex_apps_tools_cache_key(Some(&auth)), key());
    assert_eq!(
        codex_apps_tools_cache_key(None),
        CodexAppsToolsCacheKey {
            account_id: None,
            chatgpt_user_id: None,
            is_workspace_account: false,
        }
    );
}

#[test]
fn the_fingerprint_of_a_source_ignores_the_order_of_members() {
    let fingerprint = codex_apps_catalog_source_fingerprint(&source(false));
    assert_eq!(fingerprint.0, "59c21c8e628d69005de23298229f26d6c383140d");
    assert_eq!(codex_apps_catalog_source_fingerprint(&source(true)), fingerprint);
    let other = CodexAppsCatalogSource { environment_id: "remote".to_string(), ..source(false) };
    assert_ne!(codex_apps_catalog_source_fingerprint(&other), fingerprint);
}

#[test]
fn a_bearer_token_outranks_the_account_and_is_not_kept() {
    let with_token = |key| {
        CodexAppsToolsCacheIdentity::new(home("/home/me/.codex"), key, &source(false), Some("secret-token"))
    };
    let one = with_token(key());
    let other = with_token(codex_apps_tools_cache_key(None));
    assert!(one.matches(&other));
    match &one.catalog_principal {
        CodexAppsCatalogPrincipal::EnvBearerTokenFingerprint(fingerprint) => {
            assert_eq!(fingerprint.0, "1ae0af3fe72b3ba394f9fa95a6cffc090d726c23");
        }
        other => panic!("unexpected {other:?}"),
    }
    assert!(!one.matches(&identity()));
    assert!(!identity().matches(&CodexAppsToolsCacheIdentity::new(
        home("/elsewhere"),
        key(),
        &source(false),
        None
    )));
    assert_eq!(one.cache_path_in("cache").file_name, "4bcea79dc397c45aa0d8bc1eaae0c944091397de.json");
}

#[test]
fn cache_files_are_named_by_the_identity() {
    assert_eq!(
        entry().tools_cache_path(),
        CachePath {
            directory: "cache/codex_apps_tools".to_string(),
            file_name: "656541348dc579ff20616ab10c4a35a2f916f443.json".to_string(),
        }
    );
    assert_eq!(
        entry().server_info_cache_path(),
        CachePath {
            directory: "cache/codex_apps_server_info".to_string(),
            file_name: "656541348dc579ff20616ab10c4a35a2f916f443.json".to_string(),
        }
    );
    let mut odd = identity();
    odd.codex_home.unicode = false;
    assert_eq!(
        odd.cache_path_in("cache").file_name,
        "da39a3ee5e6b4b0d3255bfef95601890afd80709.json"
    );
}

#[test]
fn tools_come_back_from_their_file() {
    let tools = vec![tool("a"), tool("b")];
    let bytes = encode_tools_cache(&tools);
    let written = String::from_utf8(bytes.clone()).unwrap();
    assert_eq!(
        written,
        "{\n  \"schema_version\": 4,\n  \"tools\": [\n    {\n      \"name\": \"a\"\n    },\n    {\n      \"name\": \"b\"\n    }\n  ]\n}"
    );
    assert_eq!(decode_tools_cache(&bytes, &any_tool), Some(tools));
    assert_eq!(decode_server_info_cache(&bytes, &any_info), None);
}

#[test]
fn server_info_comes_back_from_its_file() {
    let bytes = encode_server_info_cache(&info("Apps"));
    assert_eq!(
        String::from_utf8(bytes.clone()).unwrap(),
        "{\n  \"schema_version\": 1,\n  \"server_info\": {\n    \"title\": \"Apps\"\n  }\n}"
    );
    assert_eq!(decode_server_info_cache(&bytes, &any_info), Some(info("Apps")));
    assert_eq!(decode_tools_cache(&bytes, &any_tool), None);
}

#[test]
fn files_of_another_version_or_shape_are_not_read() {
    assert_eq!(decode_tools_cache(br#"{"schema_version": 3, "tools": []}"#, &any_tool), None);
    assert_eq!(decode_tools_cache(br#"{"schema_version": 4, "tools": []}"#, &any_tool), Some(vec![]));
    assert_eq!(decode_tools_cache(br#"[4, []]"#, &any_tool), Some(vec![]));
    assert_eq!(decode_tools_cache(br#"{"schema_version": 4}"#, &any_tool), None);
    assert_eq!(decode_tools_cache(br#"{"tools": []}"#, &any_tool), None);
    assert_eq!(decode_tools_cache(br#"{"schema_version": 4, "tools": {}}"#, &any_tool), None);
    assert_eq!(decode_tools_cache(br#"{"schema_version": 4.0, "tools": []}"#, &any_tool), None);
    assert_eq!(decode_tools_cache(b"not json", &any_tool), None);
    assert_eq!(decode_tools_cache(b"", &any_tool), None);
}

#[test]
fn payloads_count_with_their_version() {
    let version = |number| JsonValue::Number(JsonNumber::Unsigned(number));
    assert_eq!(payload_of(&version(2), text("payload"), 2), Some(text("payload")));
    assert_eq!(payload_of(&version(3), text("payload"), 2), None);
    assert_eq!(payload_of(&text("2"), text("payload"), 2), None);
}

#[test]
fn fields_that_nobody_asked_for_are_passed_over() {
    let deep = format!(
        "{{\"deep\": {}{}, \"schema_version\": 4, \"tools\": [{{\"name\": \"a\"}}]}}",
        "[".repeat(300),
        "]".repeat(300)
    );
    assert_eq!(decode_tools_cache(deep.as_bytes(), &any_tool), Some(vec![tool("a")]));
    for file in [
        r#"{"schema_version": 4, "x": 1e999, "tools": []}"#,
        r#"{"schema_version": 4, "x": "\ud800", "tools": []}"#,
    ] {
        assert_eq!(decode_tools_cache(file.as_bytes(), &any_tool), Some(vec![]));
    }
    assert_eq!(
        decode_tools_cache(br#"{"schema_version": 4, "tools": [1e999]}"#, &any_tool),
        None
    );
    assert_eq!(decode_tools_cache(br#"{"schema_version": 4, "tools": [], }"#, &any_tool), None);
    assert_eq!(decode_tools_cache(br#"{"schema_version": 4, "tools": []} x"#, &any_tool), None);
}

#[test]
fn generations_grow_with_every_fetch() {
    let mut entry = entry();
    let first = entry.begin_fetch(CodexAppsToolsFetchSource::Startup);
    let second = entry.begin_fetch(CodexAppsToolsFetchSource::HardRefresh);
    assert_eq!(first.generation, 1);
    assert_eq!(second.generation, 2);
    assert_eq!(first.source.as_str(), "startup");
    assert_eq!(second.source.as_str(), "hard_refresh");
}

#[test]
fn the_latest_fetch_wins_in_whatever_order_they_come() {
    let mut entry = entry();
    assert!(!entry.has_current_tools());
    let first = entry.begin_fetch(CodexAppsToolsFetchSource::Startup);
    let second = entry.begin_fetch(CodexAppsToolsFetchSource::HardRefresh);
    match entry.publish_if_newest_accepted(second, &info("Apps"), vec![tool("new")]) {
        Publication::Published { tools, tools_file, server_info_file } => {
            assert_eq!(tools, vec![tool("new")]);
            assert_eq!(tools_file.path, entry.tools_cache_path());
            assert_eq!(tools_file.bytes, encode_tools_cache(&vec![tool("new")]));
            assert_eq!(server_info_file.path, entry.server_info_cache_path());
            assert_eq!(server_info_file.bytes, encode_server_info_cache(&info("Apps")));
        }
        other => panic!("unexpected {other:?}"),
    }
    match entry.publish_if_newest_accepted(first, &info("Apps"), vec![tool("old")]) {
        Publication::Stale { tools } => assert_eq!(tools, vec![tool("new")]),
        other => panic!("unexpected {other:?}"),
    }
    assert_eq!(entry.current_tools(), Some(vec![tool("new")]));
    assert!(entry.has_current_tools());
    assert_eq!(entry.last_accepted_generation, 2);
}

#[test]
fn a_stale_fetch_goes_on_with_its_own_tools_when_there_are_no_others() {
    let mut entry = entry();
    let ticket = entry.begin_fetch(CodexAppsToolsFetchSource::Startup);
    entry.last_accepted_generation = 1;
    match entry.publish_if_newest_accepted(ticket, &info("Apps"), vec![tool("old")]) {
        Publication::Stale { tools } => assert_eq!(tools, vec![tool("old")]),
        other => panic!("unexpected {other:?}"),
    }
    assert_eq!(entry.current_tools(), None);
}

#[test]
fn entries_load_their_file_only_when_they_are_created() {
    let mut cache = CodexAppsToolsCache::new();
    let step = cache.context(home("/home/me/.codex"), key(), &source(false), None);
    let identity = match step {
        CodexAppsToolsContextStep::Load { identity, path } => {
            assert_eq!(path, entry().tools_cache_path());
            identity
        }
        other => panic!("unexpected {other:?}"),
    };
    let context = cache.add_entry(identity, Some(vec![tool("disk")]));
    assert_eq!(context, CodexAppsToolsCacheContext { index: 0 });
    assert_eq!(cache.entries[0].current_tools(), Some(vec![tool("disk")]));
    assert_eq!(
        cache.context(home("/home/me/.codex"), key(), &source(true), None),
        CodexAppsToolsContextStep::Ready(context)
    );
    let again = cache.add_entry(
        CodexAppsToolsCacheIdentity::new(home("/home/me/.codex"), key(), &source(false), None),
        Some(vec![tool("changed")]),
    );
    assert_eq!(again, context);
    assert_eq!(cache.entries.len(), 1);
    assert_eq!(cache.entries[0].current_tools(), Some(vec![tool("disk")]));
    let other = cache.add_entry(
        CodexAppsToolsCacheIdentity::new(home("/home/me/.codex"), key(), &source(false), Some("t")),
        None,
    );
    assert_eq!(other, CodexAppsToolsCacheContext { index: 1 });
    assert!(cache.find_entry(&cache.entries[1].identity).is_some());
}

#[test]
fn only_the_codex_apps_server_has_cached_info() {
    let entry = entry();
    assert_eq!(
        startup_server_info_path("codex_apps", "codex_apps", Some(&entry)),
        Some(entry.server_info_cache_path())
    );
    assert_eq!(startup_server_info_path("other", "codex_apps", Some(&entry)), None);
    assert_eq!(startup_server_info_path("codex_apps", "codex_apps", None), None);
}

#[test]
fn a_cache_write_succeeds_with_both_files() {
    assert_eq!(cache_write_status(true, true), "success");
    assert_eq!(cache_write_status(true, false), "failure");
    assert_eq!(cache_write_status(false, true), "failure");
    assert_eq!(cache_write_status(false, false), "failure");
}

#[test]
fn files_with_a_repeated_field_hold_nothing() {
    for file in [
        r#"{"schema_version": 4, "schema_version": 4, "tools": []}"#,
        r#"{"schema_version": 4, "tools": [], "tools": []}"#,
        r#"{"schema_version": 4, "tools": [], "t\u006fols": []}"#,
    ] {
        assert_eq!(decode_tools_cache(file.as_bytes(), &any_tool), None);
    }
    assert_eq!(
        decode_tools_cache(
            br#"{"schema_version": 4, "x": {"tools": 1}, "x": "tools", "tools": []}"#,
            &any_tool
        ),
        Some(vec![])
    );
}

#[test]
fn a_file_with_something_that_is_no_tool_holds_nothing() {
    let named = |document: JsonValue| match &document {
        JsonValue::Object(map) if map.contains_key("name") => Some(ToolInfo { document }),
        _ => None,
    };
    let bytes = encode_tools_cache(&vec![tool("a")]);
    assert_eq!(decode_tools_cache(&bytes, &named), Some(vec![tool("a")]));
    assert_eq!(
        decode_tools_cache(br#"{"schema_version": 4, "tools": [{"name": "a"}, 7]}"#, &named),
        None
    );
    assert_eq!(
        decode_server_info_cache(br#"{"schema_version": 1, "server_info": 7}"#, &|_| None),
        None
    );
}

#[test]
fn fractions_are_written_as_they_were_read() {
    for digits in ["0.1", "1e300", "5e-324", "2.2250738585072014e-308", "0.30000000000000004"] {
        let tool = ToolInfo { document: JsonValue::Number(JsonNumber::Float(digits.to_string())) };
        let written = String::from_utf8(encode_tools_cache(&vec![tool])).unwrap();
        let value: f64 = digits.parse().unwrap();
        let line = written.lines().nth(3).unwrap().trim();
        assert_eq!(line.parse::<f64>().unwrap(), value);
    }
}

#[test]
fn different_sources_have_different_entries() {
    let mut cache = CodexAppsToolsCache::new();
    let first = cache.add_entry(identity(), None);
    let elsewhere = CodexAppsCatalogSource { environment_id: "remote".to_string(), ..source(false) };
    match cache.context(home("/home/me/.codex"), key(), &elsewhere, None) {
        CodexAppsToolsContextStep::Load { identity, .. } => {
            assert_ne!(cache.add_entry(identity, None), first);
        }
        other => panic!("unexpected {other:?}"),
    }
}
