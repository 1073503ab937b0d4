use codex_runtime::json::{JsonMap, JsonNumber, JsonValue};
use codex_runtime::plugin_config::{
    bind_environment_env_vars, executor_plugin_cwd, executor_plugin_cwd_given, finish_plugin_mcp_server, into_mcp_servers,
    normalize_plugin_mcp_server_value, parse_executor_plugin_mcp_config, parse_plugin_mcp_config,
    place_in_environment, plugin_mcp_config_notices, plugin_mcp_server_notices, EnvVarSource, McpServerConfig, McpServerEnvVar,
    McpServerTransportConfig, PathUriLookup, PluginMcpConfigError, PluginMcpNotice,
    PluginMcpRoot,
    PluginMcpServerParseError, PluginMcpServerPlacement,
};

fn text(value: &str) -> JsonValue {
    JsonValue::Text(value.to_string())
}

fn map(members: Vec<(&str, JsonValue)>) -> JsonMap {
    JsonMap {
        entries: members.into_iter().map(|(name, value)| (name.to_string(), value)).collect(),
    }
}

/// Path URI rules for these tests: `file:` is a URI, and joining puts a slash between.
fn resolve(root: &'static str) -> impl Fn(&str) -> PathUriLookup {
    move |cwd| PathUriLookup {
        parsed: if cwd.starts_with("file:") { Some(cwd.to_string()) } else { None },
        joined: if cwd.contains('?') {
            Err("bad character".to_string())
        } else if cwd.starts_with('/') {
            Ok(format!("file://{cwd}"))
        } else {
            Ok(format!("{root}/{cwd}"))
        },
    }
}

/// Servers for these tests have a command or a url.
fn decode(object: JsonMap) -> Result<McpServerConfig, String> {
    let local_environment = match object.get("environment_id") {
        Some(JsonValue::Text(id)) => id == "local",
        _ => true,
    };
    if object.contains_key("command") {
        let mut env_vars = Vec::new();
        if let Some(JsonValue::Array(items)) = object.get("env_vars") {
            for item in items {
                if let JsonValue::Text(name) = item {
                    env_vars.push(McpServerEnvVar::Name(name.clone()));
                }
            }
        }
        Ok(McpServerConfig {
            local_environment,
            transport: McpServerTransportConfig::Stdio { env_vars, settings: object },
            settings: JsonMap::new(),
        })
    } else if object.contains_key("url") {
        Ok(McpServerConfig {
            local_environment,
            transport: McpServerTransportConfig::StreamableHttp { settings: object },
            settings: JsonMap::new(),
        })
    } else {
        Err("invalid transport".to_string())
    }
}

fn settings(config: &McpServerConfig) -> &JsonMap {
    match &config.transport {
        McpServerTransportConfig::Stdio { settings, .. } => settings,
        McpServerTransportConfig::StreamableHttp { settings } => settings,
    }
}

#[test]
fn both_shapes_of_a_file_are_read() {
    for contents in [
        r#"{"mcpServers": {"a": {"command": "run"}}}"#,
        r#"{"a": {"command": "run"}}"#,
    ] {
        let outcome = parse_plugin_mcp_config(
            "/plugin",
            contents,
            PluginMcpServerPlacement::Declared,
            &resolve("/plugin"),
            &decode,
        )
        .unwrap();
        assert_eq!(outcome.errors, vec![]);
        assert_eq!(outcome.servers.entries.len(), 1);
        assert_eq!(outcome.servers.entries[0].0, "a");
        assert_eq!(settings(&outcome.servers.entries[0].1).get("command"), Some(&text("run")));
    }
}

#[test]
fn a_faulty_server_does_not_discard_its_siblings() {
    let outcome = parse_plugin_mcp_config(
        "/plugin",
        r#"{"z": {"command": "run"}, "m": {"nothing": 1}, "a": {"url": "https://x"}, "n": 3}"#,
        PluginMcpServerPlacement::Declared,
        &resolve("/plugin"),
        &decode,
    )
    .unwrap();
    let names: Vec<&str> = outcome.servers.entries.iter().map(|e| e.0.as_str()).collect();
    assert_eq!(names, vec!["a", "z"]);
    assert_eq!(
        outcome.errors,
        vec![
            PluginMcpServerParseError {
                name: "m".to_string(),
                message: "invalid transport".to_string(),
            },
            PluginMcpServerParseError {
                name: "n".to_string(),
                message: "invalid transport".to_string(),
            },
        ]
    );
}

#[test]
fn a_malformed_document_fails_as_a_whole() {
    let json = parse_plugin_mcp_config(
        "/plugin",
        "{",
        PluginMcpServerPlacement::Declared,
        &resolve("/plugin"),
        &decode,
    );
    match json {
        Err(PluginMcpConfigError::Json(message)) => {
            assert_eq!(message, "EOF while parsing an object at line 1 column 1");
        }
        other => panic!("unexpected {other:?}"),
    }
    let shape = parse_plugin_mcp_config(
        "/plugin",
        "3",
        PluginMcpServerPlacement::Declared,
        &resolve("/plugin"),
        &decode,
    );
    assert_eq!(shape, Err(PluginMcpConfigError::Shape));
    let list = parse_plugin_mcp_config(
        "/plugin",
        r#"[{"a": {"command": "run"}}]"#,
        PluginMcpServerPlacement::Declared,
        &resolve("/plugin"),
        &decode,
    );
    assert_eq!(list, Err(PluginMcpConfigError::Shape));
}

#[test]
fn servers_that_are_no_object_fall_back_to_the_bare_map() {
    let servers = into_mcp_servers(&JsonValue::Object(map(vec![
        ("mcpServers", JsonValue::Bool(true)),
        ("a", JsonValue::Null),
    ])), false)
    .unwrap();
    assert_eq!(
        servers.entries,
        vec![
            ("a".to_string(), JsonValue::Null),
            ("mcpServers".to_string(), JsonValue::Bool(true)),
        ]
    );
    assert!(into_mcp_servers(&JsonValue::Null, false).is_none());
}

#[test]
fn a_declared_relative_directory_is_put_below_the_root() {
    let outcome = parse_plugin_mcp_config(
        "/plugin",
        r#"{"a": {"command": "run", "cwd": "work"}, "b": {"command": "run", "cwd": "/abs"}}"#,
        PluginMcpServerPlacement::Declared,
        &resolve("/plugin"),
        &decode,
    )
    .unwrap();
    assert_eq!(settings(outcome.servers.get("a").unwrap()).get("cwd"), Some(&text("/plugin/work")));
    assert_eq!(settings(outcome.servers.get("b").unwrap()).get("cwd"), Some(&text("/abs")));
}

#[test]
fn an_environment_binds_its_servers() {
    let outcome = parse_plugin_mcp_config(
        "/plugin",
        r#"{"a": {"command": "run", "env_vars": ["TOKEN"]},
            "b": {"command": "run", "cwd": "work", "environment_id": "other"},
            "c": {"url": "https://x"},
            "d": {"command": "run", "cwd": null},
            "e": {"command": "run", "cwd": "../up"}}"#,
        PluginMcpServerPlacement::Environment { environment_id: "remote-1" },
        &resolve("/plugin"),
        &decode,
    )
    .unwrap();
    let a = outcome.servers.get("a").unwrap();
    assert!(!a.local_environment);
    assert_eq!(settings(a).get("cwd"), Some(&text("/plugin")));
    match &a.transport {
        McpServerTransportConfig::Stdio { env_vars, .. } => assert_eq!(
            env_vars,
            &vec![McpServerEnvVar::Config {
                name: "TOKEN".to_string(),
                source: Some(EnvVarSource::Remote),
            }]
        ),
        other => panic!("unexpected {other:?}"),
    }
    let b = settings(outcome.servers.get("b").unwrap());
    assert_eq!(b.get("cwd"), Some(&text("/plugin/work")));
    assert_eq!(b.get("environment_id"), Some(&text("remote-1")));
    let c = settings(outcome.servers.get("c").unwrap());
    assert_eq!(c.get("cwd"), None);
    assert_eq!(c.get("environment_id"), Some(&text("remote-1")));
    let d = settings(outcome.servers.get("d").unwrap());
    assert_eq!(d.get("cwd"), Some(&text("/plugin")));
    assert_eq!(
        outcome.errors,
        vec![PluginMcpServerParseError {
            name: "e".to_string(),
            message: "relative cwd `../up` must remain within plugin root `/plugin`".to_string(),
        }]
    );
}

#[test]
fn an_executor_root_is_no_path_of_the_host() {
    let outcome = parse_executor_plugin_mcp_config(
        "file:///remote/plugin",
        r#"{"a": {"command": "run"},
            "b": {"command": "run", "cwd": "work"},
            "c": {"command": "run", "cwd": "/abs"},
            "d": {"command": "run", "cwd": "file:///x"},
            "e": {"command": "run", "cwd": "odd?"},
            "f": {"command": "run", "cwd": "/odd?"},
            "g": {"command": "run", "cwd": 7}}"#,
        "remote-1",
        &resolve("file:///remote/plugin"),
        &decode,
    )
    .unwrap();
    let cwd = |name: &str| settings(outcome.servers.get(name).unwrap()).get("cwd").unwrap().duplicate();
    assert_eq!(cwd("a"), text("file:///remote/plugin"));
    assert_eq!(cwd("b"), text("file:///remote/plugin/work"));
    assert_eq!(cwd("c"), text("file:///abs"));
    assert_eq!(cwd("d"), text("file:///x"));
    assert_eq!(cwd("g"), JsonValue::Number(JsonNumber::Unsigned(7)));
    assert_eq!(
        outcome.errors,
        vec![
            PluginMcpServerParseError {
                name: "e".to_string(),
                message: "relative cwd `odd?` must remain within plugin root `file:///remote/plugin`: bad character".to_string(),
            },
            PluginMcpServerParseError {
                name: "f".to_string(),
                message: "invalid cwd `/odd?`: bad character".to_string(),
            },
        ]
    );
}

#[test]
fn relative_directories_that_may_leave_the_root_are_refused() {
    let none = PathUriLookup { parsed: None, joined: Ok("x".to_string()) };
    for cwd in ["..", "a/../..", "a\\..\\b", "\\windows", "C:work"] {
        assert_eq!(
            executor_plugin_cwd(PluginMcpRoot::Host("/plugin"), cwd, &none),
            Err(format!("relative cwd `{cwd}` must remain within plugin root `/plugin`"))
        );
    }
    assert_eq!(
        executor_plugin_cwd(PluginMcpRoot::Host("/plugin"), "a..b/c", &none),
        Ok("/plugin/a..b/c".to_string())
    );
    assert_eq!(
        executor_plugin_cwd(PluginMcpRoot::Host("/plugin"), "C:\\work", &none),
        Ok("C:\\work".to_string())
    );
}

#[test]
fn roots_are_shown_and_used_as_they_are_written() {
    assert_eq!(PluginMcpRoot::Host("/plugin").display(), "/plugin");
    assert_eq!(PluginMcpRoot::Uri("file:///p").display(), "file:///p");
    let none = PathUriLookup { parsed: None, joined: Ok(String::new()) };
    assert_eq!(PluginMcpRoot::Uri("file:///p").environment_cwd(None, &none), Ok("file:///p".to_string()));
    assert_eq!(PluginMcpRoot::Uri("file:///p").declared_cwd("work"), None);
    assert_eq!(PluginMcpRoot::Host("/p").declared_cwd("/abs"), None);
    assert_eq!(PluginMcpRoot::Host("/p").declared_cwd("work"), Some("/p/work".to_string()));
}

#[test]
fn transport_types_are_dropped_and_oauth_members_renamed() {
    let object = normalize_plugin_mcp_server_value(
        PluginMcpRoot::Host("/plugin"),
        JsonValue::Object(map(vec![
            ("type", text("http")),
            ("url", text("https://x")),
            (
                "oauth",
                JsonValue::Object(map(vec![
                    ("clientId", text("id")),
                    ("callbackPort", JsonValue::Number(JsonNumber::Unsigned(1))),
                    ("scope", text("s")),
                ])),
            ),
        ])),
        PluginMcpServerPlacement::Declared,
    );
    assert!(!object.contains_key("type"));
    assert_eq!(object.get("url"), Some(&text("https://x")));
    match object.get("oauth") {
        Some(JsonValue::Object(oauth)) => {
            assert_eq!(oauth.get("client_id"), Some(&text("id")));
            assert_eq!(oauth.get("scope"), Some(&text("s")));
            assert_eq!(oauth.entries.len(), 2);
        }
        other => panic!("unexpected {other:?}"),
    }
}

#[test]
fn empty_or_odd_oauth_members_are_dropped() {
    for oauth in [
        JsonValue::Object(map(vec![("callbackPort", text("1"))])),
        JsonValue::Object(JsonMap::new()),
        text("odd"),
    ] {
        let object = normalize_plugin_mcp_server_value(
            PluginMcpRoot::Host("/plugin"),
            JsonValue::Object(map(vec![("oauth", oauth), ("url", text("u"))])),
            PluginMcpServerPlacement::Declared,
        );
        assert_eq!(object.entries, map(vec![("url", text("u"))]).entries);
    }
    let kept = normalize_plugin_mcp_server_value(
        PluginMcpRoot::Host("/plugin"),
        JsonValue::Object(map(vec![(
            "oauth",
            JsonValue::Object(map(vec![("clientId", text("new")), ("client_id", text("old"))])),
        )])),
        PluginMcpServerPlacement::Declared,
    );
    assert_eq!(
        kept.get("oauth"),
        Some(&JsonValue::Object(map(vec![("client_id", text("old"))])))
    );
}

fn stdio(local_environment: bool, env_vars: Vec<McpServerEnvVar>) -> McpServerConfig {
    McpServerConfig {
        local_environment,
        transport: McpServerTransportConfig::Stdio { env_vars, settings: JsonMap::new() },
        settings: JsonMap::new(),
    }
}

fn variable(name: &str, source: Option<EnvVarSource>) -> McpServerEnvVar {
    McpServerEnvVar::Config { name: name.to_string(), source }
}

#[test]
fn variables_of_a_remote_environment_become_remote() {
    let mut config = stdio(
        false,
        vec![
            McpServerEnvVar::Name("A".to_string()),
            variable("B", None),
            variable("C", Some(EnvVarSource::Remote)),
        ],
    );
    assert_eq!(bind_environment_env_vars(&mut config), Ok(()));
    let bound = stdio(
        false,
        vec![
            variable("A", Some(EnvVarSource::Remote)),
            variable("B", Some(EnvVarSource::Remote)),
            variable("C", Some(EnvVarSource::Remote)),
        ],
    );
    assert_eq!(config, bound);
    assert_eq!(bind_environment_env_vars(&mut config), Ok(()));
    assert_eq!(config, bound);
}

#[test]
fn variables_with_the_wrong_source_are_refused() {
    let mut remote = stdio(
        false,
        vec![McpServerEnvVar::Name("A".to_string()), variable("B", Some(EnvVarSource::Local))],
    );
    assert_eq!(
        bind_environment_env_vars(&mut remote),
        Err("env_vars entry `B` cannot use source `local` in an executor-owned plugin".to_string())
    );
    assert_eq!(
        remote,
        stdio(
            false,
            vec![
                variable("A", Some(EnvVarSource::Remote)),
                variable("B", Some(EnvVarSource::Local)),
            ]
        )
    );
    let mut local = stdio(true, vec![variable("B", Some(EnvVarSource::Remote))]);
    assert_eq!(
        bind_environment_env_vars(&mut local),
        Err("env_vars entry `B` cannot use source `remote` in a local environment".to_string())
    );
    let mut fine = stdio(
        true,
        vec![
            McpServerEnvVar::Name("A".to_string()),
            variable("B", None),
            variable("C", Some(EnvVarSource::Local)),
        ],
    );
    assert_eq!(bind_environment_env_vars(&mut fine), Ok(()));
}

#[test]
fn decoded_servers_are_bound_only_in_an_environment() {
    let wrong = || stdio(true, vec![variable("B", Some(EnvVarSource::Remote))]);
    assert_eq!(
        finish_plugin_mcp_server(Ok(wrong()), PluginMcpServerPlacement::Declared),
        Ok(wrong())
    );
    assert!(finish_plugin_mcp_server(
        Ok(wrong()),
        PluginMcpServerPlacement::Environment { environment_id: "local" }
    )
    .is_err());
    assert_eq!(
        finish_plugin_mcp_server(Err("no".to_string()), PluginMcpServerPlacement::Declared),
        Err("no".to_string())
    );
}

#[test]
fn placing_an_object_without_a_command_sets_no_directory() {
    let placed = place_in_environment(
        map(vec![("url", text("u")), ("cwd", text("c"))]),
        "env",
        Ok("unused".to_string()),
    )
    .unwrap();
    assert_eq!(
        placed.entries,
        map(vec![("url", text("u")), ("cwd", text("c")), ("environment_id", text("env"))]).entries
    );
    assert_eq!(
        place_in_environment(map(vec![("command", text("run"))]), "env", Err("no".to_string())),
        Err("no".to_string())
    );
}

#[test]
fn both_shapes_mean_the_same() {
    let parse = |contents: &str| {
        parse_plugin_mcp_config(
            "/plugin",
            contents,
            PluginMcpServerPlacement::Declared,
            &resolve("/plugin"),
            &decode,
        )
        .unwrap()
    };
    let servers = r#"{"a": {"command": "run", "cwd": "bin"}, "b": {}}"#;
    let bare = parse(servers);
    assert_eq!(parse(&format!("{{\"mcpServers\": {servers}}}")), bare);
    assert_eq!(
        parse(&format!("{{\"x\": [\"mcpServers\"], \"mcpServers\": {servers}, \"y\": 1}}")),
        bare
    );
    assert_eq!(bare.errors.len(), 1);
}

#[test]
fn repeated_servers_are_taken_for_a_server_of_that_name() {
    let outcome = parse_plugin_mcp_config(
        "/plugin",
        r#"{"mcpServers": {"a": {"command": "x"}}, "mcp\u0053ervers": {"command": "run"}}"#,
        PluginMcpServerPlacement::Declared,
        &resolve("/plugin"),
        &decode,
    )
    .unwrap();
    let names: Vec<&str> = outcome.servers.entries.iter().map(|e| e.0.as_str()).collect();
    assert_eq!(names, vec!["mcpServers"]);
    assert_eq!(settings(&outcome.servers.entries[0].1).get("command"), Some(&text("run")));
}

#[test]
fn a_declared_directory_is_replaced_where_the_host_takes_it_for_relative() {
    let joined = || "joined".to_string();
    assert_eq!(
        PluginMcpRoot::Host("/p").declared_cwd_given(false, joined()),
        Some("joined".to_string())
    );
    assert_eq!(PluginMcpRoot::Host("/p").declared_cwd_given(true, joined()), None);
    assert_eq!(PluginMcpRoot::Uri("file:///p").declared_cwd_given(false, joined()), None);
    assert_eq!(PluginMcpRoot::Host("/p/").declared_cwd("bin"), Some("/p/bin".to_string()));
    assert_eq!(PluginMcpRoot::Host("").declared_cwd("bin"), Some("bin".to_string()));
    assert_eq!(PluginMcpRoot::Host("/p").declared_cwd("\\\\x"), Some("/p/\\\\x".to_string()));
    assert_eq!(PluginMcpRoot::Host("/p").declared_cwd("C:x"), Some("/p/C:x".to_string()));
}

#[test]
fn a_declared_directory_stays_as_it_is_in_an_environment() {
    let value = || JsonValue::Object(map(vec![("command", text("x")), ("cwd", text("bin"))]));
    let cwd = |placement| {
        normalize_plugin_mcp_server_value(PluginMcpRoot::Host("/p"), value(), placement)
            .remove("cwd")
    };
    assert_eq!(cwd(PluginMcpServerPlacement::Declared), Some(text("/p/bin")));
    assert_eq!(
        cwd(PluginMcpServerPlacement::Environment { environment_id: "e" }),
        Some(text("bin"))
    );
}

#[test]
fn odd_declarations_are_noticed() {
    let unknown = || PluginMcpNotice::UnknownTransportType("carrier-pigeon".to_string());
    assert_eq!(
        plugin_mcp_config_notices(
            r#"{"b": {"type": "carrier-pigeon", "oauth": {"callbackPort": 1}},
                "a": {"type": "stdio", "oauth": {"callbackPort": null}},
                "c": {"type": 7, "oauth": "x"}, "d": 3}"#
        ),
        vec![
            PluginMcpNotice::CallbackPortIgnored,
            unknown(),
            PluginMcpNotice::CallbackPortIgnored,
        ]
    );
    assert_eq!(plugin_mcp_config_notices("{"), vec![]);
    assert_eq!(plugin_mcp_config_notices("3"), vec![]);
    for known in ["http", "streamable_http", "streamable-http", "stdio"] {
        let value = JsonValue::Object(map(vec![("type", text(known))]));
        assert_eq!(plugin_mcp_server_notices(&value), vec![]);
    }
    let value = JsonValue::Object(map(vec![("type", text("carrier-pigeon"))]));
    assert_eq!(plugin_mcp_server_notices(&value), vec![unknown()]);
}

#[test]
fn an_accepted_relative_directory_is_what_the_host_joins() {
    let uri = || PathUriLookup { parsed: None, joined: Ok("uri".to_string()) };
    let given = |root, cwd: &str| {
        executor_plugin_cwd_given(root, cwd, &uri(), "host".to_string())
    };
    assert_eq!(given(PluginMcpRoot::Host("/p"), "bin"), Ok("host".to_string()));
    assert_eq!(given(PluginMcpRoot::Host("/p"), "/abs"), Ok("/abs".to_string()));
    assert_eq!(given(PluginMcpRoot::Uri("file:///p"), "bin"), Ok("uri".to_string()));
    assert!(given(PluginMcpRoot::Host("/p"), "..").is_err());
}
