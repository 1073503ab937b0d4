//! MCP servers declared by a plugin: reading the plugin's file and normalizing each server.

use vstd::prelude::*;
use vstd::utf8::encode_utf8;

use crate::json::json_parse;
use crate::json::json_parse_bytes;
use crate::json::read_json;
use crate::json::member_views;
use crate::json::parsed;
use crate::json::sort_members;
use crate::json::JsonMap;
use crate::json::JsonValue;
use crate::json::JsonView;
use crate::json_members::fields_are_those_of_their_members;
use crate::json_members::members_in;
use crate::json_members::missing_names_have_no_field;
use crate::json_members::name_stands_twice;
use crate::json_members::stands_twice;
use crate::named::assign;
use crate::named::assign_effect;
use crate::named::has_name;
use crate::named::in_order;
use crate::named::in_order_lookup;
use crate::named::lookup;
use crate::named::names_distinct;
use crate::named::names_increasing;
use crate::named::position;
use crate::named::position_finds;
use crate::named::position_is;
use crate::named::put;
use crate::named::without;
use crate::named::without_effect;
use crate::named::SortedMap;
use crate::paths::absolute_on_some_host;
use crate::paths::drive_prefixed;
use crate::paths::has_parent_component;
use crate::paths::has_windows_drive_prefix;
use crate::paths::host_path_is_absolute;
use crate::paths::host_path_join;
use crate::paths::joined_lies_below;
use crate::paths::joined_on_some_host;
use crate::paths::lies_below;
use crate::paths::native_absolute;
use crate::paths::native_path_str_is_absolute;
use crate::paths::may_have_prefix;
use crate::paths::relative_path_has_parent_component;
use crate::paths::starts_with;
use crate::paths::verbatim_root;
use crate::text::begins_with;
use crate::text::option_view;
use crate::text::result_view;
use crate::text::same_text;
use crate::text::text_less;
use crate::text::text_less_irreflexive;

verus! {

/// Placement applied while normalizing MCP servers declared by a plugin.
#[derive(Clone, Copy, Debug)]
pub enum PluginMcpServerPlacement<'a> {
    /// Preserve declared placement, resolving a relative working directory below the plugin root.
    Declared,
    /// Bind stdio servers to one environment and default their working directory to the plugin root.
    Environment { environment_id: &'a str },
}

/// One plugin MCP server that could not be normalized into runtime configuration.
#[derive(Clone, Debug, PartialEq, Eq)]
pub struct PluginMcpServerParseError {
    pub name: String,
    pub message: String,
}

/// Valid servers and per-server errors parsed from one plugin MCP file.
#[derive(Debug, PartialEq, Eq)]
pub struct PluginMcpConfigParseOutcome {
    pub servers: SortedMap<McpServerConfig>,
    pub errors: Vec<PluginMcpServerParseError>,
}

/// Why a plugin MCP file as a whole could not be read.
#[derive(Debug, PartialEq, Eq)]
pub enum PluginMcpConfigError {
    /// The text is not JSON; the reader's message.
    Json(String),
    /// The document has neither of the two shapes of a plugin MCP file.
    Shape,
}

/// Where an environment variable handed to a server comes from.
#[derive(Clone, Copy, Debug, PartialEq, Eq, Structural)]
pub enum EnvVarSource {
    Local,
    Remote,
}

/// An environment variable that a stdio server asks for.
#[derive(Debug, PartialEq, Eq)]
pub enum McpServerEnvVar {
    Name(String),
    Config { name: String, source: Option<EnvVarSource> },
}

/// How a server is reached. What normalization does not look at is kept as the members of a
/// JSON object.
#[derive(Debug, PartialEq, Eq)]
pub enum McpServerTransportConfig {
    Stdio { env_vars: Vec<McpServerEnvVar>, settings: JsonMap },
    StreamableHttp { settings: JsonMap },
}

/// The runtime configuration of one server. What normalization does not look at is kept as the
/// members of a JSON object.
#[derive(Debug, PartialEq, Eq)]
pub struct McpServerConfig {
    /// Whether the server's environment is the local one.
    pub local_environment: bool,
    pub transport: McpServerTransportConfig,
    pub settings: JsonMap,
}

/// Where a plugin lies: a path on the host, or a path URI of an executor.
#[derive(Clone, Copy, Debug)]
pub enum PluginMcpRoot<'a> {
    Host(&'a str),
    Uri(&'a str),
}

/// What the path URI rules say of a configured working directory.
#[derive(Debug, PartialEq, Eq)]
pub struct PathUriLookup {
    /// The URI that the text itself is, if it is one.
    pub parsed: Option<String>,
    /// The text joined to the plugin root's URI, or why it cannot be; of no account for a root
    /// on the host.
    pub joined: Result<String, String>,
}

/// An environment variable as contracts speak of it.
pub enum EnvVarView {
    Name(Seq<char>),
    Config { name: Seq<char>, source: Option<EnvVarSource> },
}

impl View for McpServerEnvVar {
    type V = EnvVarView;

    open spec fn view(&self) -> EnvVarView {
        match *self {
            McpServerEnvVar::Name(name) => EnvVarView::Name(name@),
            McpServerEnvVar::Config { name, source } => EnvVarView::Config { name: name@, source },
        }
    }
}

/// The environment variables as contracts speak of them.
pub open spec fn env_var_views(env_vars: Seq<McpServerEnvVar>) -> Seq<EnvVarView> {
    Seq::new(env_vars.len(), |i: int| env_vars[i]@)
}

/// A transport as contracts speak of it.
pub enum TransportView {
    Stdio { env_vars: Seq<EnvVarView>, settings: Seq<(Seq<char>, JsonView)> },
    StreamableHttp { settings: Seq<(Seq<char>, JsonView)> },
}

impl View for McpServerTransportConfig {
    type V = TransportView;

    open spec fn view(&self) -> TransportView {
        match *self {
            McpServerTransportConfig::Stdio { env_vars, settings } => TransportView::Stdio {
                env_vars: env_var_views(env_vars@),
                settings: settings@,
            },
            McpServerTransportConfig::StreamableHttp { settings } => TransportView::StreamableHttp {
                settings: settings@,
            },
        }
    }
}

/// A configuration as contracts speak of it.
pub struct ConfigView {
    pub local_environment: bool,
    pub transport: TransportView,
    pub settings: Seq<(Seq<char>, JsonView)>,
}

impl View for McpServerConfig {
    type V = ConfigView;

    open spec fn view(&self) -> ConfigView {
        ConfigView {
            local_environment: self.local_environment,
            transport: self.transport@,
            settings: self.settings@,
        }
    }
}

/// A lookup as contracts speak of it.
pub struct PathUriView {
    pub parsed: Option<Seq<char>>,
    pub joined: Result<Seq<char>, Seq<char>>,
}

impl View for PathUriLookup {
    type V = PathUriView;

    open spec fn view(&self) -> PathUriView {
        PathUriView {
            parsed: option_view(self.parsed),
            joined: result_view(self.joined),
        }
    }
}

// Binding environment variables.

/// A variable after binding: whatever names no source in an environment that is not local comes
/// from there.
pub open spec fn bound_var(env_var: EnvVarView, local: bool) -> EnvVarView {
    match env_var {
        EnvVarView::Name(name) if !local => EnvVarView::Config {
            name,
            source: Some(EnvVarSource::Remote),
        },
        EnvVarView::Config { name, source: None } if !local => EnvVarView::Config {
            name,
            source: Some(EnvVarSource::Remote),
        },
        _ => env_var,
    }
}

/// Whether a variable asks for the source that its environment does not have.
pub open spec fn source_conflicts(env_var: EnvVarView, local: bool) -> bool {
    env_var matches EnvVarView::Config { source: Some(source), .. } && (source
        == EnvVarSource::Remote) == local
}

/// What is said of a variable with the wrong source.
pub open spec fn conflict_message(env_var: EnvVarView, local: bool) -> Seq<char> {
    match env_var {
        EnvVarView::Config { name, .. } if local => "env_vars entry `"@ + name
            + "` cannot use source `remote` in a local environment"@,
        EnvVarView::Config { name, .. } => "env_vars entry `"@ + name
            + "` cannot use source `local` in an executor-owned plugin"@,
        _ => Seq::empty(),
    }
}

/// Where the first variable with the wrong source stands; the number of variables if none does.
pub open spec fn first_conflict(env_vars: Seq<EnvVarView>, local: bool) -> int
    decreases env_vars.len(),
{
    if env_vars.len() == 0 || source_conflicts(env_vars[0], local) {
        0
    } else {
        1 + first_conflict(env_vars.drop_first(), local)
    }
}

/// The variables with the first `count` of them bound.
pub open spec fn bound_vars(env_vars: Seq<EnvVarView>, local: bool, count: int) -> Seq<EnvVarView> {
    Seq::new(
        env_vars.len(),
        |i: int|
            if i < count {
                bound_var(env_vars[i], local)
            } else {
                env_vars[i]
            },
    )
}

/// The configuration with the first `count` of its variables bound.
pub open spec fn bound_config(config: ConfigView, count: int) -> ConfigView {
    match config.transport {
        TransportView::Stdio { env_vars, settings } => ConfigView {
            transport: TransportView::Stdio {
                env_vars: bound_vars(env_vars, config.local_environment, count),
                settings,
            },
            ..config
        },
        _ => config,
    }
}

/// The variables of a stdio server; none for another.
pub open spec fn stdio_vars(config: ConfigView) -> Seq<EnvVarView> {
    match config.transport {
        TransportView::Stdio { env_vars, .. } => env_vars,
        _ => Seq::empty(),
    }
}

/// A configuration after binding, or the message on its first variable with the wrong source.
pub open spec fn bind_outcome(config: ConfigView) -> Result<ConfigView, Seq<char>> {
    let env_vars = stdio_vars(config);
    let at = first_conflict(env_vars, config.local_environment);
    if at < env_vars.len() {
        Err(conflict_message(env_vars[at], config.local_environment))
    } else {
        Ok(bound_config(config, at))
    }
}

/// What `first_conflict` finds.
pub proof fn first_conflict_finds(env_vars: Seq<EnvVarView>, local: bool)
    ensures
        0 <= first_conflict(env_vars, local) <= env_vars.len(),
        first_conflict(env_vars, local) < env_vars.len() ==> source_conflicts(
            env_vars[first_conflict(env_vars, local)],
            local,
        ),
        forall|j: int|
            #![trigger env_vars[j]]
            0 <= j < first_conflict(env_vars, local) ==> !source_conflicts(env_vars[j], local),
    decreases env_vars.len(),
{
    if env_vars.len() > 0 && !source_conflicts(env_vars[0], local) {
        first_conflict_finds(env_vars.drop_first(), local);
        assert forall|j: int|
            #![trigger env_vars[j]]
            0 <= j < first_conflict(env_vars, local) implies !source_conflicts(
            env_vars[j],
            local,
        ) by {
            if j > 0 {
                assert(env_vars[j] == env_vars.drop_first()[j - 1]);
            }
        }
    }
}

/// A place with the wrong source, before which there is none, is the first one.
proof fn first_conflict_is(env_vars: Seq<EnvVarView>, local: bool, at: int)
    requires
        0 <= at <= env_vars.len(),
        at < env_vars.len() ==> source_conflicts(env_vars[at], local),
        forall|j: int|
            #![trigger env_vars[j]]
            0 <= j < at ==> !source_conflicts(env_vars[j], local),
    ensures
        first_conflict(env_vars, local) == at,
{
    first_conflict_finds(env_vars, local);
}

/// The variable after binding.
fn bind_env_var(env_var: &McpServerEnvVar, local: bool) -> (bound: McpServerEnvVar)
    ensures
        bound@ == bound_var(env_var@, local),
{
    match env_var {
        McpServerEnvVar::Name(name) if !local => McpServerEnvVar::Config {
            name: name.clone(),
            source: Some(EnvVarSource::Remote),
        },
        McpServerEnvVar::Name(name) => McpServerEnvVar::Name(name.clone()),
        McpServerEnvVar::Config { name, source: None } if !local => McpServerEnvVar::Config {
            name: name.clone(),
            source: Some(EnvVarSource::Remote),
        },
        McpServerEnvVar::Config { name, source } => McpServerEnvVar::Config {
            name: name.clone(),
            source: *source,
        },
    }
}

/// The message on a variable with the wrong source, if it has it.
fn env_var_conflict(env_var: &McpServerEnvVar, local: bool) -> (message: Option<String>)
    ensures
        message is Some <==> source_conflicts(env_var@, local),
        message matches Some(text) ==> text@ == conflict_message(env_var@, local),
{
    match env_var {
        McpServerEnvVar::Config { name, source: Some(EnvVarSource::Remote) } if local => Some(
            "env_vars entry `".to_owned().concat(name.as_str()).concat(
                "` cannot use source `remote` in a local environment",
            ),
        ),
        McpServerEnvVar::Config { name, source: Some(EnvVarSource::Local) } if !local => Some(
            "env_vars entry `".to_owned().concat(name.as_str()).concat(
                "` cannot use source `local` in an executor-owned plugin",
            ),
        ),
        _ => None,
    }
}

/// Binds variables in place, up to the first one with the wrong source.
fn bind_env_vars(env_vars: &mut Vec<McpServerEnvVar>, local: bool) -> (result: Result<(), String>)
    ensures
        ({
            let before = env_var_views(old(env_vars)@);
            let at = first_conflict(before, local);
            &&& env_var_views(final(env_vars)@) == bound_vars(before, local, at)
            &&& result is Ok <==> at == before.len()
            &&& result matches Err(message) ==> message@ == conflict_message(before[at], local)
        }),
{
    let ghost before = env_var_views(env_vars@);
    let mut i: usize = 0;
    assert(env_var_views(env_vars@) =~= bound_vars(before, local, 0));
    while i < env_vars.len()
        invariant
            i <= env_vars@.len(),
            env_vars@.len() == before.len(),
            before == env_var_views(old(env_vars)@),
            env_var_views(env_vars@) == bound_vars(before, local, i as int),
            forall|j: int| #![trigger before[j]] 0 <= j < i ==> !source_conflicts(before[j], local),
        decreases env_vars@.len() - i,
    {
        assert(env_vars@[i as int]@ == env_var_views(env_vars@)[i as int]);
        match env_var_conflict(&env_vars[i], local) {
            Some(message) => {
                proof {
                    first_conflict_is(before, local, i as int);
                }
                return Err(message);
            },
            None => {},
        }
        let ghost unbound = env_vars@;
        let bound = bind_env_var(&env_vars[i], local);
        env_vars[i] = bound;
        proof {
            assert forall|j: int| 0 <= j < before.len() implies env_var_views(env_vars@)[j]
                == #[trigger] bound_vars(before, local, i + 1)[j] by {
                assert(env_var_views(unbound)[j] == bound_vars(before, local, i as int)[j]);
            }
            assert(env_var_views(env_vars@) =~= bound_vars(before, local, i + 1));
        }
        i = i + 1;
    }
    proof {
        first_conflict_is(before, local, i as int);
    }
    Ok(())
}

/// Binds the environment variables of a stdio server to the environment it runs in. Variables
/// before the first one with the wrong source are bound, the others are left.
pub fn bind_environment_env_vars(config: &mut McpServerConfig) -> (result: Result<(), String>)
    ensures
        final(config)@ == bound_config(
            old(config)@,
            first_conflict(stdio_vars(old(config)@), old(config)@.local_environment),
        ),
        match result {
            Ok(_) => bind_outcome(old(config)@) == Ok::<ConfigView, Seq<char>>(final(config)@),
            Err(message) => bind_outcome(old(config)@) == Err::<ConfigView, Seq<char>>(message@),
        },
{
    let local = config.local_environment;
    proof {
        first_conflict_finds(stdio_vars(config@), local);
    }
    match &mut config.transport {
        McpServerTransportConfig::Stdio { env_vars, .. } => bind_env_vars(env_vars, local),
        _ => Ok(()),
    }
}

// Working directories.

/// The root as it is shown and as a default working directory.
pub open spec fn root_text(root: PluginMcpRoot<'_>) -> Seq<char> {
    match root {
        PluginMcpRoot::Host(path) => path@,
        PluginMcpRoot::Uri(uri) => uri@,
    }
}

/// Whether a working directory that is not absolute could leave the root it is resolved below.
pub open spec fn may_leave_root(cwd: Seq<char>) -> bool {
    has_parent_component(cwd) || begins_with(cwd, '/') || begins_with(cwd, '\\') || drive_prefixed(
        cwd,
    )
}

/// What is said of a relative working directory that could leave the root.
pub open spec fn outside_message(root: PluginMcpRoot<'_>, cwd: Seq<char>) -> Seq<char> {
    "relative cwd `"@ + cwd + "` must remain within plugin root `"@ + root_text(root) + "`"@
}

/// The working directory that a configured one may be resolved to. A path URI stands for itself.
/// An absolute path stays on the host and is joined to a root elsewhere. A relative path that
/// could leave the root is refused, any other is put below the root.
pub open spec fn executor_cwd(
    root: PluginMcpRoot<'_>,
    cwd: Seq<char>,
    uri: PathUriView,
    resolved: Result<Seq<char>, Seq<char>>,
) -> bool {
    exists|host_joined: Seq<char>|
        host_may_join(root, cwd, host_joined) && resolved == #[trigger] executor_cwd_given(
            root,
            cwd,
            uri,
            host_joined,
        )
}

/// What the host may join a path to a root of its own as.
pub open spec fn host_may_join(
    root: PluginMcpRoot<'_>,
    cwd: Seq<char>,
    host_joined: Seq<char>,
) -> bool {
    match root {
        PluginMcpRoot::Host(path) => !verbatim_root(path@) ==> joined_on_some_host(
            path@,
            cwd,
            host_joined,
        ),
        PluginMcpRoot::Uri(_) => true,
    }
}

/// The working directory of a server bound to an environment: the configured one resolved, or
/// the root itself.
pub open spec fn environment_cwd_is(
    root: PluginMcpRoot<'_>,
    configured: Option<Seq<char>>,
    uri: PathUriView,
    resolved: Result<Seq<char>, Seq<char>>,
) -> bool {
    match configured {
        Some(cwd) => executor_cwd(root, cwd, uri, resolved),
        None => resolved == Ok::<Seq<char>, Seq<char>>(root_text(root)),
    }
}

/// The working directory that a declared one may be replaced by: on the host a relative one is
/// joined to the root, and nothing else is replaced. Where the platforms differ on whether a path is
/// absolute, it is left as it is or joined to the root as some host does.
pub open spec fn declared_cwd_is(
    root: PluginMcpRoot<'_>,
    cwd: Seq<char>,
    resolved: Option<Seq<char>>,
) -> bool {
    match root {
        PluginMcpRoot::Host(path) => {
            &&& !absolute_on_some_host(cwd) ==> resolved is Some
            &&& resolved is Some && !verbatim_root(path@) ==> joined_on_some_host(
                path@,
                cwd,
                resolved->0,
            )
        },
        PluginMcpRoot::Uri(_) => resolved is None,
    }
}

fn outside_error(root: PluginMcpRoot<'_>, cwd: &str) -> (message: String)
    ensures
        message@ == outside_message(root, cwd@),
{
    "relative cwd `".to_owned().concat(cwd).concat("` must remain within plugin root `").concat(
        root.display().as_str(),
    ).concat("`")
}

/// What a configured working directory is resolved to, given what the host joins it to the root as.
pub open spec fn executor_cwd_given(
    root: PluginMcpRoot<'_>,
    cwd: Seq<char>,
    uri: PathUriView,
    host_joined: Seq<char>,
) -> Result<Seq<char>, Seq<char>> {
    if uri.parsed is Some {
        Ok(uri.parsed->0)
    } else if native_absolute(cwd) {
        match (root, uri.joined) {
            (PluginMcpRoot::Host(_), _) => Ok(cwd),
            (PluginMcpRoot::Uri(_), Ok(joined)) => Ok(joined),
            (PluginMcpRoot::Uri(_), Err(reason)) => Err("invalid cwd `"@ + cwd + "`: "@ + reason),
        }
    } else if may_leave_root(cwd) {
        Err(outside_message(root, cwd))
    } else {
        match (root, uri.joined) {
            (PluginMcpRoot::Host(_), _) => Ok(host_joined),
            (PluginMcpRoot::Uri(_), Ok(joined)) => Ok(joined),
            (PluginMcpRoot::Uri(_), Err(reason)) => Err(
                outside_message(root, cwd) + ": "@ + reason,
            ),
        }
    }
}

/// Resolves the working directory configured for a server of an executor-owned plugin.
pub fn executor_plugin_cwd(
    plugin_root: PluginMcpRoot<'_>,
    configured_cwd: &str,
    uri: &PathUriLookup,
) -> (result: Result<String, String>)
    ensures
        executor_cwd(plugin_root, configured_cwd@, uri@, result_view(result)),
{
    let host_joined = match plugin_root {
        PluginMcpRoot::Host(path) => host_path_join(path, configured_cwd),
        PluginMcpRoot::Uri(_) => String::new(),
    };
    executor_plugin_cwd_given(plugin_root, configured_cwd, uri, host_joined)
}

/// Resolves the working directory configured for a server of an executor-owned plugin, given what
/// the host joins it to the root as.
///
/// A component of two dots refuses a relative path whether it stands between slashes or between
/// backslashes.
pub fn executor_plugin_cwd_given(
    plugin_root: PluginMcpRoot<'_>,
    configured_cwd: &str,
    uri: &PathUriLookup,
    host_joined: String,
) -> (result: Result<String, String>)
    ensures
        result_view(result) == executor_cwd_given(
            plugin_root,
            configured_cwd@,
            uri@,
            host_joined@,
        ),
{
    match &uri.parsed {
        Some(parsed) => {
            return Ok(parsed.clone());
        },
        None => {},
    }
    if native_path_str_is_absolute(configured_cwd) {
        return match (plugin_root, &uri.joined) {
            (PluginMcpRoot::Host(_), _) => Ok(configured_cwd.to_owned()),
            (PluginMcpRoot::Uri(_), Ok(joined)) => Ok(joined.clone()),
            (PluginMcpRoot::Uri(_), Err(reason)) => Err(
                "invalid cwd `".to_owned().concat(configured_cwd).concat("`: ").concat(
                    reason.as_str(),
                ),
            ),
        };
    }
    if relative_path_has_parent_component(configured_cwd) || starts_with(configured_cwd, '/')
        || starts_with(configured_cwd, '\\') || has_windows_drive_prefix(configured_cwd) {
        return Err(outside_error(plugin_root, configured_cwd));
    }
    match (plugin_root, &uri.joined) {
        (PluginMcpRoot::Host(_), _) => Ok(host_joined),
        (PluginMcpRoot::Uri(_), Ok(joined)) => Ok(joined.clone()),
        (PluginMcpRoot::Uri(_), Err(reason)) => Err(
            outside_error(plugin_root, configured_cwd).concat(": ").concat(reason.as_str()),
        ),
    }
}

impl<'a> PluginMcpRoot<'a> {
    /// The root as it is shown.
    pub fn display(self) -> (text: String)
        ensures
            text@ == root_text(self),
    {
        match self {
            PluginMcpRoot::Host(path) => path.to_owned(),
            PluginMcpRoot::Uri(uri) => uri.to_owned(),
        }
    }

    /// The working directory of a server bound to an environment.
    pub fn environment_cwd(self, configured_cwd: Option<&str>, uri: &PathUriLookup) -> (result:
        Result<String, String>)
        ensures
            environment_cwd_is(
                self,
                match configured_cwd {
                    Some(cwd) => Some(cwd@),
                    None => None,
                },
                uri@,
                result_view(result),
            ),
    {
        match configured_cwd {
            Some(cwd) => executor_plugin_cwd(self, cwd, uri),
            None => Ok(self.display()),
        }
    }

    /// What replaces a declared working directory, if anything does.
    pub fn declared_cwd(self, cwd: &str) -> (resolved: Option<String>)
        ensures
            declared_cwd_is(self, cwd@, option_view(resolved)),
    {
        match self {
            PluginMcpRoot::Host(path) => self.declared_cwd_given(
                host_path_is_absolute(cwd),
                host_path_join(path, cwd),
            ),
            PluginMcpRoot::Uri(_) => None,
        }
    }

    /// What replaces a declared working directory, given whether the host takes it for absolute
    /// and what the host joins it to the root as.
    pub fn declared_cwd_given(self, absolute: bool, joined: String) -> (resolved: Option<String>)
        ensures
            option_view(resolved) == (match self {
                PluginMcpRoot::Host(_) if !absolute => Some(joined@),
                _ => None,
            }),
    {
        match self {
            PluginMcpRoot::Host(_) if !absolute => Some(joined),
            _ => None,
        }
    }
}

/// A relative working directory is accepted just if it cannot leave the plugin root, and lies below
/// the root on the host then: the root's text ends where a component begins, and no component of
/// what follows is two dots.
pub proof fn accepted_relative_cwd_stays_below(
    root: Seq<char>,
    plugin_root: PluginMcpRoot<'_>,
    cwd: Seq<char>,
    uri: PathUriView,
    resolved: Result<Seq<char>, Seq<char>>,
)
    requires
        plugin_root matches PluginMcpRoot::Host(path) && path@ == root,
        !verbatim_root(root),
        uri.parsed is None,
        !native_absolute(cwd),
        executor_cwd(plugin_root, cwd, uri, resolved),
    ensures
        resolved is Ok <==> !may_leave_root(cwd),
        resolved matches Ok(text) ==> lies_below(root, text) && cwd.is_suffix_of(text)
            && text.len() <= root.len() + 1 + cwd.len() && !has_parent_component(cwd),
{
    if let Ok(text) = resolved {
        joined_lies_below(root, cwd, text);
        assert(cwd =~= text.subrange(text.len() - cwd.len(), text.len() as int));
    }
}

// Normalizing one server.

/// The OAuth members that are kept: the callback port is dropped, and the client id goes under
/// its snake-case name unless that name is taken.
pub open spec fn oauth_members(oauth: Seq<(Seq<char>, JsonView)>) -> Seq<(Seq<char>, JsonView)> {
    let portless = without(oauth, "callbackPort"@);
    let rest = without(portless, "clientId"@);
    match lookup(portless, "clientId"@) {
        Some(client_id) if !has_name(rest, "client_id"@) => assign(
            rest,
            "client_id"@,
            client_id,
        ),
        _ => rest,
    }
}

/// The members of a declared server without its transport type and with its OAuth members
/// normalized; nothing of OAuth is kept where nothing is left of it or it is no object. What is
/// no object declares nothing.
pub open spec fn plugin_members(value: JsonView) -> Seq<(Seq<char>, JsonView)> {
    match value {
        JsonView::Object(members) => {
            let typeless = without(members, "type"@);
            let rest = without(typeless, "oauth"@);
            match lookup(typeless, "oauth"@) {
                Some(JsonView::Object(oauth)) if oauth_members(oauth).len() > 0 => assign(
                    rest,
                    "oauth"@,
                    JsonView::Object(oauth_members(oauth)),
                ),
                _ => rest,
            }
        },
        _ => Seq::empty(),
    }
}

/// The working directory of an object, where it is a text.
pub open spec fn cwd_text(members: Seq<(Seq<char>, JsonView)>) -> Option<Seq<char>> {
    match lookup(members, "cwd"@) {
        Some(JsonView::Text(cwd)) => Some(cwd),
        _ => None,
    }
}

/// An object with a working directory put in, where there is one to put in.
pub open spec fn with_cwd(members: Seq<(Seq<char>, JsonView)>, cwd: Option<Seq<char>>) -> Seq<
    (Seq<char>, JsonView),
> {
    match cwd {
        Some(text) => assign(members, "cwd"@, JsonView::Text(text)),
        None => members,
    }
}

/// An object bound to an environment: it names the environment, and if it runs a command, its
/// working directory is the resolved one, unless it is neither a text nor null nor missing.
pub open spec fn environment_members(
    members: Seq<(Seq<char>, JsonView)>,
    environment_id: Seq<char>,
    resolved: Result<Seq<char>, Seq<char>>,
) -> Result<Seq<(Seq<char>, JsonView)>, Seq<char>> {
    let placed = assign(members, "environment_id"@, JsonView::Text(environment_id));
    if !has_name(placed, "command"@) {
        Ok(placed)
    } else {
        let rest = without(placed, "cwd"@);
        match lookup(placed, "cwd"@) {
            Some(JsonView::Text(_)) | Some(JsonView::Null) | None => match resolved {
                Ok(cwd) => Ok(assign(rest, "cwd"@, JsonView::Text(cwd))),
                Err(message) => Err(message),
            },
            Some(value) => Ok(assign(rest, "cwd"@, value)),
        }
    }
}

/// The OAuth members that are kept.
fn normalize_oauth(oauth: JsonMap) -> (kept: JsonMap)
    ensures
        kept@ == oauth_members(oauth@),
{
    let mut kept = oauth;
    let _ = kept.remove("callbackPort");
    match kept.remove("clientId") {
        Some(client_id) => {
            if !kept.contains_key("client_id") {
                kept.insert("client_id".to_owned(), client_id);
            }
        },
        None => {},
    }
    kept
}

/// The members of a declared server without its transport type and with its OAuth members
/// normalized.
pub fn normalize_plugin_members(value: JsonValue) -> (object: JsonMap)
    ensures
        object@ == plugin_members(value@),
{
    match value {
        JsonValue::Object(map) => {
            let mut object = map;
            let _ = object.remove("type");
            match object.remove("oauth") {
                Some(JsonValue::Object(oauth)) => {
                    let kept = normalize_oauth(oauth);
                    if !kept.is_empty() {
                        object.insert("oauth".to_owned(), JsonValue::Object(kept));
                    }
                },
                _ => {},
            }
            object
        },
        _ => JsonMap::new(),
    }
}

/// The working directory of an object, where it is a text.
fn configured_cwd(object: &JsonMap) -> (cwd: Option<String>)
    ensures
        cwd_text(object@) == option_view(cwd),
{
    match object.get("cwd") {
        Some(JsonValue::Text(text)) => Some(text.clone()),
        _ => None,
    }
}

/// Normalizes what a plugin declared for a server, before any binding to an environment. A
/// declared placement has its working directory resolved below the root.
pub fn normalize_plugin_mcp_server_value(
    plugin_root: PluginMcpRoot<'_>,
    value: JsonValue,
    placement: PluginMcpServerPlacement<'_>,
) -> (object: JsonMap)
    ensures
        declared_object(plugin_root, value@, placement, object@),
{
    let ghost declared = value@;
    let mut object = normalize_plugin_members(value);
    let mut resolved: Option<String> = None;
    match placement {
        PluginMcpServerPlacement::Declared => {
            match configured_cwd(&object) {
                Some(cwd) => {
                    resolved = plugin_root.declared_cwd(cwd.as_str());
                },
                None => {},
            }
        },
        PluginMcpServerPlacement::Environment { .. } => {},
    }
    assert(declared_cwd_answers(plugin_root, declared, placement, option_view(resolved)));
    match resolved {
        Some(text) => object.insert("cwd".to_owned(), JsonValue::Text(text)),
        None => {},
    }
    object
}

/// What may replace the declared working directory of a server; nothing where the placement is
/// an environment or no text was declared.
pub open spec fn declared_cwd_answers(
    root: PluginMcpRoot<'_>,
    value: JsonView,
    placement: PluginMcpServerPlacement<'_>,
    resolved: Option<Seq<char>>,
) -> bool {
    match (placement, cwd_text(plugin_members(value))) {
        (PluginMcpServerPlacement::Declared, Some(cwd)) => declared_cwd_is(root, cwd, resolved),
        _ => resolved is None,
    }
}

/// What a declared server may be normalized to, before any binding to an environment.
pub open spec fn declared_object(
    root: PluginMcpRoot<'_>,
    value: JsonView,
    placement: PluginMcpServerPlacement<'_>,
    object: Seq<(Seq<char>, JsonView)>,
) -> bool {
    exists|resolved: Option<Seq<char>>| #[trigger]
        declared_cwd_answers(root, value, placement, resolved) && object == with_cwd(
            plugin_members(value),
            resolved,
        )
}

/// Binds an object to an environment, given what its working directory resolves to.
pub fn place_in_environment(
    object: JsonMap,
    environment_id: &str,
    resolved: Result<String, String>,
) -> (result: Result<JsonMap, String>)
    ensures
        environment_members(object@, environment_id@, result_view(resolved)) == (match result {
            Ok(placed) => Ok(placed@),
            Err(message) => Err(message@),
        }),
{
    let mut placed = object;
    placed.insert("environment_id".to_owned(), JsonValue::Text(environment_id.to_owned()));
    if placed.contains_key("command") {
        match placed.remove("cwd") {
            Some(JsonValue::Text(_)) | Some(JsonValue::Null) | None => match resolved {
                Ok(cwd) => placed.insert("cwd".to_owned(), JsonValue::Text(cwd)),
                Err(message) => {
                    return Err(message);
                },
            },
            Some(value) => placed.insert("cwd".to_owned(), value),
        }
    }
    Ok(placed)
}

/// What the working directory of an object bound to an environment may resolve to. The path URI
/// rules matter only for a text that a command is to run in.
pub open spec fn environment_cwd_answers<R: Fn(&str) -> PathUriLookup>(
    root: PluginMcpRoot<'_>,
    members: Seq<(Seq<char>, JsonView)>,
    resolve: R,
    resolved: Result<Seq<char>, Seq<char>>,
) -> bool {
    has_name(members, "command"@) ==> match cwd_text(members) {
        Some(cwd) => exists|text: &str, uri: PathUriLookup|
            text@ == cwd && #[trigger] call_ensures(resolve, (text,), uri) && executor_cwd(
                root,
                cwd,
                uri@,
                resolved,
            ),
        None => resolved == Ok::<Seq<char>, Seq<char>>(root_text(root)),
    }
}

/// What an object may become in its placement.
pub open spec fn placement_answers<R: Fn(&str) -> PathUriLookup>(
    root: PluginMcpRoot<'_>,
    members: Seq<(Seq<char>, JsonView)>,
    placement: PluginMcpServerPlacement<'_>,
    resolve: R,
    placed: Result<Seq<(Seq<char>, JsonView)>, Seq<char>>,
) -> bool {
    match placement {
        PluginMcpServerPlacement::Declared => placed == Ok::<
            Seq<(Seq<char>, JsonView)>,
            Seq<char>,
        >(members),
        PluginMcpServerPlacement::Environment { environment_id } => exists|
            resolved: Result<Seq<char>, Seq<char>>,
        | #[trigger]
            environment_cwd_answers(root, members, resolve, resolved) && placed
                == environment_members(members, environment_id@, resolved),
    }
}

/// What comes of a decoded configuration: in an environment its variables are bound.
pub open spec fn finished(
    decoded: Result<McpServerConfig, String>,
    placement: PluginMcpServerPlacement<'_>,
) -> Result<ConfigView, Seq<char>> {
    match (decoded, placement) {
        (Err(message), _) => Err(message@),
        (Ok(config), PluginMcpServerPlacement::Declared) => Ok(config@),
        (Ok(config), PluginMcpServerPlacement::Environment { .. }) => bind_outcome(config@),
    }
}

/// What may come of a normalized object.
pub open spec fn decode_answers<D: Fn(JsonMap) -> Result<McpServerConfig, String>>(
    placed: Result<Seq<(Seq<char>, JsonView)>, Seq<char>>,
    placement: PluginMcpServerPlacement<'_>,
    decode: D,
    result: Result<ConfigView, Seq<char>>,
) -> bool {
    match placed {
        Ok(members) => exists|object: JsonMap, decoded: Result<McpServerConfig, String>|
            object@ == members && #[trigger] call_ensures(decode, (object,), decoded) && result
                == finished(decoded, placement),
        Err(message) => result == Err::<ConfigView, Seq<char>>(message),
    }
}

/// What may come of one declared server.
pub open spec fn server_answers<
    R: Fn(&str) -> PathUriLookup,
    D: Fn(JsonMap) -> Result<McpServerConfig, String>,
>(
    root: PluginMcpRoot<'_>,
    value: JsonView,
    placement: PluginMcpServerPlacement<'_>,
    resolve: R,
    decode: D,
    result: Result<ConfigView, Seq<char>>,
) -> bool {
    exists|
        object: Seq<(Seq<char>, JsonView)>,
        placed: Result<Seq<(Seq<char>, JsonView)>, Seq<char>>,
    |
        declared_object(root, value, placement, object) && #[trigger] placement_answers(
            root,
            object,
            placement,
            resolve,
            placed,
        ) && decode_answers(placed, placement, decode, result)
}

/// A configuration or a message as contracts speak of it.
pub open spec fn config_result_view(result: Result<McpServerConfig, String>) -> Result<
    ConfigView,
    Seq<char>,
> {
    match result {
        Ok(config) => Ok(config@),
        Err(message) => Err(message@),
    }
}

/// What comes of a decoded configuration in its placement.
pub fn finish_plugin_mcp_server(
    decoded: Result<McpServerConfig, String>,
    placement: PluginMcpServerPlacement<'_>,
) -> (result: Result<McpServerConfig, String>)
    ensures
        config_result_view(result) == finished(decoded, placement),
{
    match (decoded, placement) {
        (Ok(config), PluginMcpServerPlacement::Environment { .. }) => {
            let mut bound = config;
            match bind_environment_env_vars(&mut bound) {
                Ok(_) => Ok(bound),
                Err(message) => Err(message),
            }
        },
        (Ok(config), PluginMcpServerPlacement::Declared) => Ok(config),
        (Err(message), _) => Err(message),
    }
}

/// Normalizes one declared server into runtime configuration.
///
/// `resolve` answers for the path URI rules, and `decode` reads a normalized object as a
/// configuration.
pub fn normalize_plugin_mcp_server<
    R: Fn(&str) -> PathUriLookup,
    D: Fn(JsonMap) -> Result<McpServerConfig, String>,
>(
    plugin_root: PluginMcpRoot<'_>,
    value: JsonValue,
    placement: PluginMcpServerPlacement<'_>,
    resolve: &R,
    decode: &D,
) -> (result: Result<McpServerConfig, String>)
    requires
        forall|text: &str| call_requires(*resolve, (text,)),
        forall|object: JsonMap| call_requires(*decode, (object,)),
    ensures
        server_answers(
            plugin_root,
            value@,
            placement,
            *resolve,
            *decode,
            config_result_view(result),
        ),
{
    let object = normalize_plugin_mcp_server_value(plugin_root, value, placement);
    let ghost members = object@;
    let placed = match placement {
        PluginMcpServerPlacement::Environment { environment_id } => {
            let mut resolved: Result<String, String> = plugin_root.environment_cwd(
                None,
                &PathUriLookup { parsed: None, joined: Ok(String::new()) },
            );
            if object.contains_key("command") {
                match configured_cwd(&object) {
                    Some(cwd) => {
                        let uri = resolve(cwd.as_str());
                        resolved = plugin_root.environment_cwd(Some(cwd.as_str()), &uri);
                    },
                    None => {},
                }
            }
            assert(environment_cwd_answers(plugin_root, members, *resolve, result_view(resolved)));
            place_in_environment(object, environment_id, resolved)
        },
        PluginMcpServerPlacement::Declared => Ok(object),
    };
    let ghost placed_view = members_result_view(placed);
    assert(placement_answers(plugin_root, members, placement, *resolve, placed_view));
    match placed {
        Ok(object) => {
            let decoded = decode(object);
            assert(call_ensures(*decode, (object,), decoded));
            finish_plugin_mcp_server(decoded, placement)
        },
        Err(message) => Err(message),
    }
}

/// An object or a message as contracts speak of it.
pub open spec fn members_result_view(result: Result<JsonMap, String>) -> Result<
    Seq<(Seq<char>, JsonView)>,
    Seq<char>,
> {
    match result {
        Ok(object) => Ok(object@),
        Err(message) => Err(message@),
    }
}

// Reading a plugin's file.

/// The servers that a document declares: those under `mcpServers` where that is an object and is
/// not repeated, else the members of the document itself.
pub open spec fn file_servers(document: JsonView, repeated: bool) -> Option<
    Seq<(Seq<char>, JsonView)>,
> {
    match document {
        JsonView::Object(members) => match lookup(members, "mcpServers"@) {
            Some(JsonView::Object(servers)) if !repeated => Some(servers),
            _ => Some(members),
        },
        _ => None,
    }
}

/// The servers that a document declares, in the order of their names; `repeated` tells whether the
/// document's text has `mcpServers` twice.
pub fn into_mcp_servers(document: &JsonValue, repeated: bool) -> (servers: Option<
    SortedMap<JsonValue>,
>)
    ensures
        servers is Some <==> file_servers(document@, repeated) is Some,
        servers matches Some(map) ==> map.wf() && member_views(map@) == in_order(
            file_servers(document@, repeated)->0,
        ),
{
    match document {
        JsonValue::Object(map) => {
            assert(document@ == JsonView::Object(map@));
            match map.get("mcpServers") {
                Some(JsonValue::Object(servers)) if !repeated => {
                    assert(JsonValue::Object(*servers)@ == JsonView::Object(servers@));
                    Some(sort_members(servers))
                },
                _ => Some(sort_members(map)),
            }
        },
        _ => None,
    }
}

/// The servers that were normalized, in order.
pub open spec fn accepted(results: Seq<(Seq<char>, Result<ConfigView, Seq<char>>)>) -> Seq<
    (Seq<char>, ConfigView),
>
    decreases results.len(),
{
    if results.len() == 0 {
        Seq::empty()
    } else {
        let rest = accepted(results.drop_last());
        match results.last().1 {
            Ok(config) => rest.push((results.last().0, config)),
            Err(_) => rest,
        }
    }
}

/// The servers that were not, each with its message, in order.
pub open spec fn rejected(results: Seq<(Seq<char>, Result<ConfigView, Seq<char>>)>) -> Seq<
    (Seq<char>, Seq<char>),
>
    decreases results.len(),
{
    if results.len() == 0 {
        Seq::empty()
    } else {
        let rest = rejected(results.drop_last());
        match results.last().1 {
            Ok(_) => rest,
            Err(message) => rest.push((results.last().0, message)),
        }
    }
}

/// Servers with their configurations as contracts speak of them.
pub open spec fn config_members(members: Seq<(Seq<char>, McpServerConfig)>) -> Seq<
    (Seq<char>, ConfigView),
> {
    Seq::new(members.len(), |i: int| (members[i].0, members[i].1@))
}

/// Errors as contracts speak of them.
pub open spec fn error_views(errors: Seq<PluginMcpServerParseError>) -> Seq<
    (Seq<char>, Seq<char>),
> {
    Seq::new(errors.len(), |i: int| (errors[i].name@, errors[i].message@))
}

/// The outcome holds the normalized servers and the errors of the others, each in order.
pub open spec fn outcome_holds(
    outcome: PluginMcpConfigParseOutcome,
    results: Seq<(Seq<char>, Result<ConfigView, Seq<char>>)>,
) -> bool {
    &&& outcome.servers.wf()
    &&& config_members(outcome.servers@) == accepted(results)
    &&& error_views(outcome.errors@) == rejected(results)
}

/// Every name of the normalized servers is a name of a result.
proof fn accepted_names(results: Seq<(Seq<char>, Result<ConfigView, Seq<char>>)>, at: int)
    requires
        0 <= at < accepted(results).len(),
    ensures
        exists|j: int|
            #![trigger results[j]]
            0 <= j < results.len() && results[j].0 == accepted(results)[at].0 && results[j].1
                == Ok::<ConfigView, Seq<char>>(accepted(results)[at].1),
    decreases results.len(),
{
    let rest = results.drop_last();
    if at < accepted(rest).len() {
        accepted_names(rest, at);
        let j = choose|j: int|
            #![trigger rest[j]]
            0 <= j < rest.len() && rest[j].0 == accepted(rest)[at].0 && rest[j].1 == Ok::<
                ConfigView,
                Seq<char>,
            >(accepted(rest)[at].1);
        assert(results[j] == rest[j]);
    } else {
        assert(results[results.len() - 1] == results.last());
    }
}

impl PluginMcpConfigParseOutcome {
    /// An outcome without servers and errors.
    pub fn new() -> (outcome: Self)
        ensures
            outcome.servers.wf(),
            outcome.servers@ == Seq::<(Seq<char>, McpServerConfig)>::empty(),
            outcome.errors@ == Seq::<PluginMcpServerParseError>::empty(),
    {
        PluginMcpConfigParseOutcome { servers: SortedMap::new(), errors: Vec::new() }
    }

    /// Adds what came of the next server. The names of the servers come in order.
    fn add_result(
        &mut self,
        name: String,
        result: Result<McpServerConfig, String>,
        Ghost(results): Ghost<Seq<(Seq<char>, Result<ConfigView, Seq<char>>)>>,
    )
        requires
            outcome_holds(*old(self), results),
            names_increasing(results.push((name@, config_result_view(result)))),
        ensures
            outcome_holds(*final(self), results.push((name@, config_result_view(result)))),
    {
        let ghost next = results.push((name@, config_result_view(result)));
        assert(next.drop_last() =~= results);
        match result {
            Ok(config) => {
                proof {
                    let before = self.servers@;
                    if before.len() > 0 {
                        let last = before.len() - 1;
                        assert(config_members(before)[last].0 == before[last].0);
                        accepted_names(results, last);
                        let j = choose|j: int|
                            #![trigger results[j]]
                            0 <= j < results.len() && results[j].0 == accepted(results)[last].0
                                && results[j].1 == Ok::<ConfigView, Seq<char>>(
                                accepted(results)[last].1,
                            );
                        assert(text_less(next[j].0, next[next.len() - 1].0));
                        text_less_irreflexive(name@);
                    }
                    assert(put(before, name@, config) =~= before.push((name@, config)));
                }
                self.servers.insert(name, config);
                assert(config_members(self.servers@) =~= accepted(next));
            },
            Err(message) => {
                self.errors.push(PluginMcpServerParseError { name, message });
                assert(error_views(self.errors@) =~= rejected(next));
            },
        }
    }
}

/// What may come of the servers of a document: one result for each, in the order of their names.
pub open spec fn results_answer<
    R: Fn(&str) -> PathUriLookup,
    D: Fn(JsonMap) -> Result<McpServerConfig, String>,
>(
    root: PluginMcpRoot<'_>,
    servers: Seq<(Seq<char>, JsonView)>,
    placement: PluginMcpServerPlacement<'_>,
    resolve: R,
    decode: D,
    results: Seq<(Seq<char>, Result<ConfigView, Seq<char>>)>,
) -> bool {
    &&& results.len() == servers.len()
    &&& forall|i: int|
        #![trigger results[i]]
        0 <= i < results.len() ==> results[i].0 == servers[i].0 && server_answers(
            root,
            servers[i].1,
            placement,
            resolve,
            decode,
            results[i].1,
        )
}

/// Whether the text of a plugin's file has `mcpServers` twice.
pub open spec fn servers_repeated(contents: Seq<char>) -> bool {
    stands_twice(encode_utf8(contents), "mcpServers"@)
}

/// What may come of a plugin's file.
pub open spec fn parse_answers<
    R: Fn(&str) -> PathUriLookup,
    D: Fn(JsonMap) -> Result<McpServerConfig, String>,
>(
    root: PluginMcpRoot<'_>,
    contents: Seq<char>,
    placement: PluginMcpServerPlacement<'_>,
    resolve: R,
    decode: D,
    result: Result<PluginMcpConfigParseOutcome, PluginMcpConfigError>,
) -> bool {
    match json_parse(contents) {
        Err(message) => result matches Err(PluginMcpConfigError::Json(text)) && text@ == message,
        Ok(document) => document_answers(
            root,
            document,
            servers_repeated(contents),
            placement,
            resolve,
            decode,
            result,
        ),
    }
}

/// What may come of a plugin's document.
pub open spec fn document_answers<
    R: Fn(&str) -> PathUriLookup,
    D: Fn(JsonMap) -> Result<McpServerConfig, String>,
>(
    root: PluginMcpRoot<'_>,
    document: JsonView,
    repeated: bool,
    placement: PluginMcpServerPlacement<'_>,
    resolve: R,
    decode: D,
    result: Result<PluginMcpConfigParseOutcome, PluginMcpConfigError>,
) -> bool {
    match (file_servers(document, repeated), result) {
        (None, Err(PluginMcpConfigError::Shape)) => true,
        (Some(servers), Ok(outcome)) => exists|
            results: Seq<(Seq<char>, Result<ConfigView, Seq<char>>)>,
        | #[trigger]
            results_answer(root, in_order(servers), placement, resolve, decode, results)
                && outcome_holds(outcome, results),
        _ => false,
    }
}

/// Normalizes the servers of a plugin's document; `repeated` tells whether its text has `mcpServers`
/// twice.
pub fn normalize_plugin_mcp_document<
    R: Fn(&str) -> PathUriLookup,
    D: Fn(JsonMap) -> Result<McpServerConfig, String>,
>(
    plugin_root: PluginMcpRoot<'_>,
    document: &JsonValue,
    repeated: bool,
    placement: PluginMcpServerPlacement<'_>,
    resolve: &R,
    decode: &D,
) -> (result: Result<PluginMcpConfigParseOutcome, PluginMcpConfigError>)
    requires
        forall|text: &str| call_requires(*resolve, (text,)),
        forall|object: JsonMap| call_requires(*decode, (object,)),
    ensures
        document_answers(plugin_root, document@, repeated, placement, *resolve, *decode, result),
{
    let servers = match into_mcp_servers(document, repeated) {
        Some(servers) => servers,
        None => {
            return Err(PluginMcpConfigError::Shape);
        },
    };
    let ghost declared = in_order(file_servers(document@, repeated)->0);
    let ghost mut results: Seq<(Seq<char>, Result<ConfigView, Seq<char>>)> = Seq::empty();
    let mut outcome = PluginMcpConfigParseOutcome::new();
    assert(config_members(outcome.servers@) =~= accepted(results));
    assert(error_views(outcome.errors@) =~= rejected(results));
    let mut i: usize = 0;
    while i < servers.entries.len()
        invariant
            i <= servers.entries@.len(),
            servers.wf(),
            declared == member_views(servers@),
            results.len() == i,
            outcome_holds(outcome, results),
            forall|text: &str| call_requires(*resolve, (text,)),
            forall|object: JsonMap| call_requires(*decode, (object,)),
            forall|j: int|
                #![trigger results[j]]
                0 <= j < i ==> results[j].0 == declared[j].0 && server_answers(
                    plugin_root,
                    declared[j].1,
                    placement,
                    *resolve,
                    *decode,
                    results[j].1,
                ),
        decreases servers.entries@.len() - i,
    {
        let name = servers.entries[i].0.clone();
        let value = servers.entries[i].1.duplicate();
        let result = normalize_plugin_mcp_server(plugin_root, value, placement, resolve, decode);
        let ghost next = results.push((name@, config_result_view(result)));
        proof {
            assert(declared[i as int] == (name@, value@));
            assert forall|a: int, b: int|
                #![trigger next[a], next[b]]
                0 <= a < b < next.len() implies text_less(next[a].0, next[b].0) by {
                assert(next[a].0 == declared[a].0);
                assert(next[b].0 == declared[b].0);
                assert(servers@[a].0 == declared[a].0);
                assert(servers@[b].0 == declared[b].0);
            }
        }
        outcome.add_result(name, result, Ghost(results));
        proof {
            results = next;
        }
        i = i + 1;
    }
    assert(results_answer(plugin_root, declared, placement, *resolve, *decode, results));
    Ok(outcome)
}

fn parse_plugin_mcp_config_with_root<
    R: Fn(&str) -> PathUriLookup,
    D: Fn(JsonMap) -> Result<McpServerConfig, String>,
>(
    plugin_root: PluginMcpRoot<'_>,
    contents: &str,
    placement: PluginMcpServerPlacement<'_>,
    resolve: &R,
    decode: &D,
) -> (result: Result<PluginMcpConfigParseOutcome, PluginMcpConfigError>)
    requires
        forall|text: &str| call_requires(*resolve, (text,)),
        forall|object: JsonMap| call_requires(*decode, (object,)),
    ensures
        parse_answers(plugin_root, contents@, placement, *resolve, *decode, result),
{
    match read_json(contents) {
        Ok(document) => normalize_plugin_mcp_document(
            plugin_root,
            &document,
            name_stands_twice(contents.as_bytes(), "mcpServers"),
            placement,
            resolve,
            decode,
        ),
        Err(message) => Err(PluginMcpConfigError::Json(message)),
    }
}

/// Parses the two supported plugin MCP file shapes and normalizes each server.
///
/// Invalid individual servers are returned as errors without discarding valid siblings. A
/// malformed top-level document fails the whole parse.
pub fn parse_plugin_mcp_config<
    R: Fn(&str) -> PathUriLookup,
    D: Fn(JsonMap) -> Result<McpServerConfig, String>,
>(
    plugin_root: &str,
    contents: &str,
    placement: PluginMcpServerPlacement<'_>,
    resolve: &R,
    decode: &D,
) -> (result: Result<PluginMcpConfigParseOutcome, PluginMcpConfigError>)
    requires
        forall|text: &str| call_requires(*resolve, (text,)),
        forall|object: JsonMap| call_requires(*decode, (object,)),
    ensures
        parse_answers(
            PluginMcpRoot::Host(plugin_root),
            contents@,
            placement,
            *resolve,
            *decode,
            result,
        ),
{
    parse_plugin_mcp_config_with_root(
        PluginMcpRoot::Host(plugin_root),
        contents,
        placement,
        resolve,
        decode,
    )
}

/// Parses executor-owned plugin MCP config without interpreting the plugin root as a path on the
/// orchestrator host.
pub fn parse_executor_plugin_mcp_config<
    R: Fn(&str) -> PathUriLookup,
    D: Fn(JsonMap) -> Result<McpServerConfig, String>,
>(
    plugin_root: &str,
    contents: &str,
    environment_id: &str,
    resolve: &R,
    decode: &D,
) -> (result: Result<PluginMcpConfigParseOutcome, PluginMcpConfigError>)
    requires
        forall|text: &str| call_requires(*resolve, (text,)),
        forall|object: JsonMap| call_requires(*decode, (object,)),
    ensures
        parse_answers(
            PluginMcpRoot::Uri(plugin_root),
            contents@,
            PluginMcpServerPlacement::Environment { environment_id },
            *resolve,
            *decode,
            result,
        ),
{
    parse_plugin_mcp_config_with_root(
        PluginMcpRoot::Uri(plugin_root),
        contents,
        PluginMcpServerPlacement::Environment { environment_id },
        resolve,
        decode,
    )
}

// Notices.

/// Something about a declared server that its author may want to know.
#[derive(Debug, PartialEq, Eq)]
pub enum PluginMcpNotice {
    /// It names a transport type that nobody knows; the type is ignored.
    UnknownTransportType(String),
    /// It names an OAuth callback port, which is ignored: the callback settings are global.
    CallbackPortIgnored,
}

/// A notice as contracts speak of it.
pub enum NoticeView {
    UnknownTransportType(Seq<char>),
    CallbackPortIgnored,
}

impl View for PluginMcpNotice {
    type V = NoticeView;

    open spec fn view(&self) -> NoticeView {
        match *self {
            PluginMcpNotice::UnknownTransportType(transport) => NoticeView::UnknownTransportType(
                transport@,
            ),
            PluginMcpNotice::CallbackPortIgnored => NoticeView::CallbackPortIgnored,
        }
    }
}

/// Notices as contracts speak of them.
pub open spec fn notice_views(notices: Seq<PluginMcpNotice>) -> Seq<NoticeView> {
    notices.map_values(|notice: PluginMcpNotice| notice@)
}

/// Whether a transport type is one that plugins use.
pub open spec fn known_transport(transport: Seq<char>) -> bool {
    transport == "http"@ || transport == "streamable_http"@ || transport == "streamable-http"@
        || transport == "stdio"@
}

/// The notices that a declared server earns.
pub open spec fn earned_notices(value: JsonView) -> Seq<NoticeView> {
    match value {
        JsonView::Object(members) => {
            (match lookup(members, "type"@) {
                Some(JsonView::Text(transport)) if !known_transport(transport) => seq![
                    NoticeView::UnknownTransportType(transport),
                ],
                _ => Seq::empty(),
            }) + (match lookup(members, "oauth"@) {
                Some(JsonView::Object(oauth)) if has_name(oauth, "callbackPort"@) => seq![
                    NoticeView::CallbackPortIgnored,
                ],
                _ => Seq::empty(),
            })
        },
        _ => Seq::empty(),
    }
}

/// The notices that servers earn, one after the other.
pub open spec fn all_notices(servers: Seq<(Seq<char>, JsonView)>) -> Seq<NoticeView>
    decreases servers.len(),
{
    if servers.len() == 0 {
        Seq::empty()
    } else {
        all_notices(servers.drop_last()) + earned_notices(servers.last().1)
    }
}

/// The notices that a plugin's file earns: those of its servers in the order of their names, and
/// none where it declares no servers.
pub open spec fn file_notices(contents: Seq<char>) -> Seq<NoticeView> {
    match json_parse(contents) {
        Ok(document) => match file_servers(document, servers_repeated(contents)) {
            Some(servers) => all_notices(in_order(servers)),
            None => Seq::empty(),
        },
        Err(_) => Seq::empty(),
    }
}

/// The notices that a declared server earns.
pub fn plugin_mcp_server_notices(value: &JsonValue) -> (notices: Vec<PluginMcpNotice>)
    ensures
        notice_views(notices@) == earned_notices(value@),
{
    let mut notices: Vec<PluginMcpNotice> = Vec::new();
    match value {
        JsonValue::Object(map) => {
            assert(value@ == JsonView::Object(map@));
            match map.get("type") {
                Some(JsonValue::Text(transport)) => {
                    if !same_text(transport.as_str(), "http") && !same_text(
                        transport.as_str(),
                        "streamable_http",
                    ) && !same_text(transport.as_str(), "streamable-http") && !same_text(
                        transport.as_str(),
                        "stdio",
                    ) {
                        notices.push(PluginMcpNotice::UnknownTransportType(transport.clone()));
                    }
                },
                _ => {},
            }
            match map.get("oauth") {
                Some(JsonValue::Object(oauth)) => {
                    assert(JsonValue::Object(*oauth)@ == JsonView::Object(oauth@));
                    if oauth.contains_key("callbackPort") {
                        notices.push(PluginMcpNotice::CallbackPortIgnored);
                    }
                },
                _ => {},
            }
        },
        _ => {},
    }
    assert(notice_views(notices@) =~= earned_notices(value@));
    notices
}

/// The notices that a plugin's file earns.
pub fn plugin_mcp_config_notices(contents: &str) -> (notices: Vec<PluginMcpNotice>)
    ensures
        notice_views(notices@) == file_notices(contents@),
{
    let mut notices: Vec<PluginMcpNotice> = Vec::new();
    assert(notice_views(notices@) =~= Seq::<NoticeView>::empty());
    let document = match read_json(contents) {
        Ok(document) => document,
        Err(_) => {
            return notices;
        },
    };
    let servers = match into_mcp_servers(
        &document,
        name_stands_twice(contents.as_bytes(), "mcpServers"),
    ) {
        Some(servers) => servers,
        None => {
            return notices;
        },
    };
    let ghost declared = member_views(servers@);
    let mut i: usize = 0;
    assert(all_notices(declared.take(0)) =~= Seq::<NoticeView>::empty());
    while i < servers.entries.len()
        invariant
            i <= servers.entries@.len(),
            declared == member_views(servers@),
            notice_views(notices@) == all_notices(declared.take(i as int)),
        decreases servers.entries@.len() - i,
    {
        let mut earned = plugin_mcp_server_notices(&servers.entries[i].1);
        proof {
            let ghost before = notice_views(notices@);
            assert(declared.take(i + 1).drop_last() =~= declared.take(i as int));
            assert(declared.take(i + 1).last() == declared[i as int]);
            assert(notice_views(notices@ + earned@) =~= before + notice_views(earned@));
        }
        notices.append(&mut earned);
        i = i + 1;
    }
    assert(declared.take(i as int) =~= declared);
    notices
}

// What holds of every plugin.

/// Every declared server is either normalized or reported, never both and never lost, and one
/// server's error leaves its siblings as they are.
pub proof fn every_server_is_accounted_for(
    results: Seq<(Seq<char>, Result<ConfigView, Seq<char>>)>,
    at: int,
)
    requires
        0 <= at < results.len(),
    ensures
        results[at].1 matches Ok(config) ==> accepted(results).contains((results[at].0, config)),
        results[at].1 matches Err(message) ==> rejected(results).contains(
            (results[at].0, message),
        ),
        accepted(results).len() + rejected(results).len() == results.len(),
    decreases results.len(),
{
    let rest = results.drop_last();
    if at < rest.len() {
        every_server_is_accounted_for(rest, at);
        assert(results[at] == rest[at]);
        if let Ok(config) = results[at].1 {
            let j = choose|j: int|
                0 <= j < accepted(rest).len() && accepted(rest)[j] == (results[at].0, config);
            assert(accepted(results)[j] == (results[at].0, config));
        }
        if let Err(message) = results[at].1 {
            let j = choose|j: int|
                0 <= j < rejected(rest).len() && rejected(rest)[j] == (results[at].0, message);
            assert(rejected(results)[j] == (results[at].0, message));
        }
    } else {
        if rest.len() > 0 {
            every_server_is_accounted_for(rest, 0);
        }
        if let Ok(config) = results[at].1 {
            assert(accepted(results)[accepted(results).len() - 1] == (results[at].0, config));
        }
        if let Err(message) = results[at].1 {
            assert(rejected(results)[rejected(results).len() - 1] == (results[at].0, message));
        }
    }
}

/// The two shapes of a plugin's file mean the same: what may come of an object of servers may come of
/// that object under `mcpServers`, whatever stands beside it, and nothing else may.
pub proof fn both_shapes_mean_the_same<
    R: Fn(&str) -> PathUriLookup,
    D: Fn(JsonMap) -> Result<McpServerConfig, String>,
>(
    servers: Seq<(Seq<char>, JsonView)>,
    members: Seq<(Seq<char>, JsonView)>,
    bare: Seq<char>,
    wrapped: Seq<char>,
    root: PluginMcpRoot<'_>,
    placement: PluginMcpServerPlacement<'_>,
    resolve: R,
    decode: D,
    result: Result<PluginMcpConfigParseOutcome, PluginMcpConfigError>,
)
    requires
        !has_name(servers, "mcpServers"@),
        lookup(members, "mcpServers"@) == Some(JsonView::Object(servers)),
        json_parse(bare) == parsed(JsonView::Object(servers)),
        json_parse(wrapped) == parsed(JsonView::Object(members)),
        !servers_repeated(wrapped),
    ensures
        file_servers(JsonView::Object(servers), servers_repeated(bare)) == Some(servers),
        file_servers(JsonView::Object(members), servers_repeated(wrapped)) == Some(servers),
        parse_answers(root, bare, placement, resolve, decode, result) <==> parse_answers(
            root,
            wrapped,
            placement,
            resolve,
            decode,
            result,
        ),
        parse_answers(root, bare, placement, resolve, decode, result) ==> result is Ok,
{
}

/// A server bound to an environment names that environment, whatever it declared, and if it runs
/// a command it has a working directory: the resolved one where a text, null or nothing was
/// configured.
pub proof fn placed_server_names_its_environment(
    members: Seq<(Seq<char>, JsonView)>,
    environment_id: Seq<char>,
    resolved: Result<Seq<char>, Seq<char>>,
)
    requires
        names_distinct(members),
    ensures
        environment_members(members, environment_id, resolved) matches Ok(placed) ==> {
            &&& names_distinct(placed)
            &&& lookup(placed, "environment_id"@) == Some(JsonView::Text(environment_id))
            &&& has_name(placed, "command"@) == has_name(members, "command"@)
            &&& has_name(members, "command"@) ==> has_name(placed, "cwd"@)
            &&& (has_name(members, "command"@) && (lookup(members, "cwd"@) is None || cwd_text(
                members,
            ) is Some)) ==> resolved is Ok && lookup(placed, "cwd"@) == Some(
                JsonView::Text(resolved->Ok_0),
            )
        },
{
    reveal_strlit("environment_id");
    reveal_strlit("command");
    reveal_strlit("cwd");
    assert("environment_id"@.len() == 14 && "command"@.len() == 7 && "cwd"@.len() == 3);
    let named = assign(members, "environment_id"@, JsonView::Text(environment_id));
    assign_effect(members, "environment_id"@, JsonView::Text(environment_id), "environment_id"@);
    assign_effect(members, "environment_id"@, JsonView::Text(environment_id), "command"@);
    assign_effect(members, "environment_id"@, JsonView::Text(environment_id), "cwd"@);
    let rest = without(named, "cwd"@);
    without_effect(named, "cwd"@, "environment_id"@);
    without_effect(named, "cwd"@, "command"@);
    let value = match lookup(named, "cwd"@) {
        Some(JsonView::Text(_)) | Some(JsonView::Null) | None => JsonView::Text(resolved->Ok_0),
        Some(value) => value,
    };
    assign_effect(rest, "cwd"@, value, "environment_id"@);
    assign_effect(rest, "cwd"@, value, "command"@);
    assign_effect(rest, "cwd"@, value, "cwd"@);
}

/// A declared working directory that begins with a slash is kept as it was declared, unless the
/// plugin root begins with a drive or a share.
pub proof fn declared_rooted_cwd_is_kept(
    root: &str,
    value: JsonView,
    placement: PluginMcpServerPlacement<'_>,
    object: Seq<(Seq<char>, JsonView)>,
    cwd: Seq<char>,
)
    requires
        cwd_text(plugin_members(value)) == Some(cwd),
        begins_with(cwd, '/'),
        !may_have_prefix(root@),
        declared_object(PluginMcpRoot::Host(root), value, placement, object),
    ensures
        cwd_text(object) == Some(cwd),
{
    let members = plugin_members(value);
    let resolved = choose|resolved: Option<Seq<char>>| #[trigger]
        declared_cwd_answers(PluginMcpRoot::Host(root), value, placement, resolved) && object
            == with_cwd(members, resolved);
    if let Some(text) = resolved {
        assert(text == cwd);
        let at = position(members, "cwd"@);
        position_finds(members, "cwd"@);
        position_is(object, "cwd"@, at);
    }
}

/// Normalizing a declared server drops its transport type and keeps every member that is neither
/// the type nor OAuth.
pub proof fn declared_members_are_kept(members: Seq<(Seq<char>, JsonView)>, name: Seq<char>)
    requires
        names_distinct(members),
    ensures
        names_distinct(plugin_members(JsonView::Object(members))),
        lookup(plugin_members(JsonView::Object(members)), "type"@) is None,
        name != "type"@ && name != "oauth"@ ==> lookup(
            plugin_members(JsonView::Object(members)),
            name,
        ) == lookup(members, name),
{
    reveal_strlit("type");
    reveal_strlit("oauth");
    assert("type"@.len() == 4 && "oauth"@.len() == 5);
    let typeless = without(members, "type"@);
    without_effect(members, "type"@, name);
    without_effect(members, "type"@, "type"@);
    let rest = without(typeless, "oauth"@);
    without_effect(typeless, "oauth"@, name);
    without_effect(typeless, "oauth"@, "type"@);
    if let Some(JsonView::Object(oauth)) = lookup(typeless, "oauth"@) {
        let kept = JsonView::Object(oauth_members(oauth));
        assign_effect(rest, "oauth"@, kept, name);
        assign_effect(rest, "oauth"@, kept, "type"@);
    }
}

/// After binding, a server outside the local environment takes every variable from its own
/// environment, and a server in the local environment takes none from elsewhere.
pub proof fn bound_variables_have_one_source(config: ConfigView, at: int)
    requires
        bind_outcome(config) is Ok,
        0 <= at < stdio_vars(config).len(),
    ensures
        ({
            let bound = bind_outcome(config)->Ok_0;
            let env_var = stdio_vars(bound)[at];
            &&& bound.local_environment == config.local_environment
            &&& stdio_vars(bound).len() == stdio_vars(config).len()
            &&& !config.local_environment ==> (env_var matches EnvVarView::Config { source, .. }
                && source == Some(EnvVarSource::Remote))
            &&& config.local_environment ==> !(env_var matches EnvVarView::Config { source, .. }
                && source == Some(EnvVarSource::Remote))
        }),
{
    first_conflict_finds(stdio_vars(config), config.local_environment);
}

/// Binding a bound configuration again changes nothing.
pub proof fn binding_is_stable(config: ConfigView)
    requires
        bind_outcome(config) is Ok,
    ensures
        bind_outcome(bind_outcome(config)->Ok_0) == bind_outcome(config),
{
    let local = config.local_environment;
    let before = stdio_vars(config);
    let bound = bind_outcome(config)->Ok_0;
    let after = stdio_vars(bound);
    first_conflict_finds(before, local);
    first_conflict_finds(after, local);
    assert(first_conflict(after, local) == after.len()) by {
        let at = first_conflict(after, local);
        if at < after.len() {
            assert(!source_conflicts(before[at], local));
        }
    }
    assert(bound_vars(after, local, after.len() as int) =~= after);
}

// What becomes of declared servers, said member by member.

/// Binding an object to an environment keeps every other member: under each name but those of the
/// environment and the working directory stands what stood there. The environment is the given one.
/// Without a command, or where the working directory is neither a text nor null nor missing, that is
/// kept too; else it is the resolved one. Only a working directory that was needed and could not be
/// resolved is an error, with its message.
pub proof fn placing_keeps_other_members(
    members: Seq<(Seq<char>, JsonView)>,
    environment_id: Seq<char>,
    resolved: Result<Seq<char>, Seq<char>>,
    name: Seq<char>,
)
    requires
        names_distinct(members),
    ensures
        ({
            let needed = lookup(members, "command"@) is Some && match lookup(members, "cwd"@) {
                Some(JsonView::Text(_)) => true,
                Some(JsonView::Null) => true,
                None => true,
                _ => false,
            };
            match environment_members(members, environment_id, resolved) {
                Ok(placed) => {
                    &&& needed ==> resolved is Ok
                    &&& names_distinct(placed)
                    &&& name != "environment_id"@ && name != "cwd"@ ==> lookup(placed, name)
                        == lookup(members, name)
                    &&& lookup(placed, "environment_id"@) == Some(JsonView::Text(environment_id))
                    &&& lookup(placed, "cwd"@) == if needed {
                        Some(JsonView::Text(resolved->Ok_0))
                    } else {
                        lookup(members, "cwd"@)
                    }
                },
                Err(message) => needed && resolved == Err::<Seq<char>, Seq<char>>(message),
            }
        }),
{
    reveal_strlit("environment_id");
    reveal_strlit("command");
    reveal_strlit("cwd");
    assert("environment_id"@.len() == 14 && "command"@.len() == 7 && "cwd"@.len() == 3);
    let id = JsonView::Text(environment_id);
    let named = assign(members, "environment_id"@, id);
    let rest = without(named, "cwd"@);
    let value = match lookup(named, "cwd"@) {
        Some(JsonView::Text(_)) | Some(JsonView::Null) | None => JsonView::Text(resolved->Ok_0),
        Some(value) => value,
    };
    assign_effect(members, "environment_id"@, id, "command"@);
    assign_effect(members, "environment_id"@, id, "environment_id"@);
    assign_effect(members, "environment_id"@, id, "cwd"@);
    assign_effect(members, "environment_id"@, id, name);
    without_effect(named, "cwd"@, "environment_id"@);
    without_effect(named, "cwd"@, name);
    assign_effect(rest, "cwd"@, value, "environment_id"@);
    assign_effect(rest, "cwd"@, value, "cwd"@);
    assign_effect(rest, "cwd"@, value, name);
}

/// Of the OAuth members the callback port is dropped and the client id goes under its snake-case name,
/// unless something stands there. Everything else is kept, so that nothing is left only where there was
/// nothing but a callback port.
pub proof fn oauth_members_are_kept(oauth: Seq<(Seq<char>, JsonView)>, name: Seq<char>)
    requires
        names_distinct(oauth),
    ensures
        names_distinct(oauth_members(oauth)),
        lookup(oauth_members(oauth), "callbackPort"@) is None,
        lookup(oauth_members(oauth), "clientId"@) is None,
        lookup(oauth_members(oauth), "client_id"@) == match lookup(oauth, "client_id"@) {
            Some(client_id) => Some(client_id),
            None => lookup(oauth, "clientId"@),
        },
        name != "callbackPort"@ && name != "clientId"@ && name != "client_id"@ ==> lookup(
            oauth_members(oauth),
            name,
        ) == lookup(oauth, name),
        lookup(oauth, name) is Some && name != "callbackPort"@ ==> oauth_members(oauth).len() > 0,
{
    reveal_strlit("callbackPort");
    reveal_strlit("clientId");
    reveal_strlit("client_id");
    assert("callbackPort"@.len() == 12 && "clientId"@.len() == 8 && "client_id"@.len() == 9);
    let portless = without(oauth, "callbackPort"@);
    let rest = without(portless, "clientId"@);
    without_effect(oauth, "callbackPort"@, "callbackPort"@);
    without_effect(oauth, "callbackPort"@, "clientId"@);
    without_effect(oauth, "callbackPort"@, "client_id"@);
    without_effect(oauth, "callbackPort"@, name);
    without_effect(portless, "clientId"@, "callbackPort"@);
    without_effect(portless, "clientId"@, "clientId"@);
    without_effect(portless, "clientId"@, "client_id"@);
    without_effect(portless, "clientId"@, name);
    if let Some(client_id) = lookup(portless, "clientId"@) {
        assign_effect(rest, "client_id"@, client_id, "callbackPort"@);
        assign_effect(rest, "client_id"@, client_id, "clientId"@);
        assign_effect(rest, "client_id"@, client_id, "client_id"@);
        assign_effect(rest, "client_id"@, client_id, name);
    }
}

/// Of a declared server the OAuth members stay an object of what is kept of them, and go where nothing
/// is kept or they were no object. What is no object declares nothing.
pub proof fn declared_oauth_is_normalized(members: Seq<(Seq<char>, JsonView)>, value: JsonView)
    requires
        names_distinct(members),
    ensures
        lookup(plugin_members(JsonView::Object(members)), "oauth"@) == match lookup(
            members,
            "oauth"@,
        ) {
            Some(JsonView::Object(oauth)) if oauth_members(oauth).len() > 0 => Some(
                JsonView::Object(oauth_members(oauth)),
            ),
            _ => None,
        },
        !(value is Object) ==> plugin_members(value).len() == 0,
{
    reveal_strlit("type");
    reveal_strlit("oauth");
    assert("type"@.len() == 4 && "oauth"@.len() == 5);
    let typeless = without(members, "type"@);
    let rest = without(typeless, "oauth"@);
    without_effect(members, "type"@, "oauth"@);
    without_effect(typeless, "oauth"@, "oauth"@);
    if let Some(JsonView::Object(oauth)) = lookup(typeless, "oauth"@) {
        assign_effect(rest, "oauth"@, JsonView::Object(oauth_members(oauth)), "oauth"@);
    }
}

/// Before any binding to an environment, a declared server keeps every member but its transport type and
/// its OAuth members as it is, save that under the declared placement a working directory that is a text
/// may be replaced by that text joined to a root on the host; it is replaced wherever no host takes it
/// for absolute.
pub proof fn normalizing_keeps_other_members(
    root: PluginMcpRoot<'_>,
    members: Seq<(Seq<char>, JsonView)>,
    placement: PluginMcpServerPlacement<'_>,
    object: Seq<(Seq<char>, JsonView)>,
    name: Seq<char>,
)
    requires
        names_distinct(members),
        declared_object(root, JsonView::Object(members), placement, object),
    ensures
        names_distinct(object),
        lookup(object, "type"@) is None,
        lookup(object, "oauth"@) == lookup(plugin_members(JsonView::Object(members)), "oauth"@),
        name != "type"@ && name != "oauth"@ && name != "cwd"@ ==> lookup(object, name) == lookup(
            members,
            name,
        ),
        match (placement, root, lookup(members, "cwd"@)) {
            (
                PluginMcpServerPlacement::Declared,
                PluginMcpRoot::Host(path),
                Some(JsonView::Text(cwd)),
            ) => {
                &&& lookup(object, "cwd"@) matches Some(JsonView::Text(kept))
                &&& kept == cwd && absolute_on_some_host(cwd) || (!verbatim_root(path@)
                    ==> joined_on_some_host(path@, cwd, kept))
            },
            _ => lookup(object, "cwd"@) == lookup(members, "cwd"@),
        },
{
    reveal_strlit("type");
    reveal_strlit("oauth");
    reveal_strlit("cwd");
    assert("type"@.len() == 4 && "oauth"@.len() == 5 && "cwd"@.len() == 3);
    let declared = plugin_members(JsonView::Object(members));
    declared_members_are_kept(members, name);
    declared_members_are_kept(members, "cwd"@);
    let resolved = choose|resolved: Option<Seq<char>>| #[trigger]
        declared_cwd_answers(root, JsonView::Object(members), placement, resolved) && object
            == with_cwd(declared, resolved);
    if let Some(text) = resolved {
        assign_effect(declared, "cwd"@, JsonView::Text(text), "type"@);
        assign_effect(declared, "cwd"@, JsonView::Text(text), "oauth"@);
        assign_effect(declared, "cwd"@, JsonView::Text(text), "cwd"@);
        assign_effect(declared, "cwd"@, JsonView::Text(text), name);
    }
}

/// A configured working directory that is a path URI stands for itself. An absolute path is kept on the
/// host, and joined to a root elsewhere. A relative one is refused if a component of it is two dots or
/// it begins with a separator or a drive, with the directory and the root in the message; else it is
/// what joining it to the root gives.
pub proof fn configured_cwd_is_resolved(
    root: PluginMcpRoot<'_>,
    root_path: Seq<char>,
    cwd: Seq<char>,
    uri: PathUriView,
    host_joined: Seq<char>,
    resolved: Result<Seq<char>, Seq<char>>,
)
    requires
        match root {
            PluginMcpRoot::Host(path) => root_path == path@,
            PluginMcpRoot::Uri(text) => root_path == text@,
        },
    ensures
        ({
            let refusal = "relative cwd `"@ + cwd + "` must remain within plugin root `"@ + root_path
                + "`"@;
            let refused = has_parent_component(cwd) || (cwd.len() > 0 && (cwd[0] == '/' || cwd[0]
                == '\\')) || drive_prefixed(cwd);
            executor_cwd_given(root, cwd, uri, host_joined) == match (uri.parsed, root) {
                (Some(parsed), _) => Ok::<Seq<char>, Seq<char>>(parsed),
                (None, PluginMcpRoot::Host(_)) => if native_absolute(cwd) {
                    Ok(cwd)
                } else if refused {
                    Err(refusal)
                } else {
                    Ok(host_joined)
                },
                (None, PluginMcpRoot::Uri(_)) => if !native_absolute(cwd) && refused {
                    Err(refusal)
                } else {
                    match uri.joined {
                        Ok(joined) => Ok(joined),
                        Err(reason) => if native_absolute(cwd) {
                            Err("invalid cwd `"@ + cwd + "`: "@ + reason)
                        } else {
                            Err(refusal + ": "@ + reason)
                        },
                    }
                },
            }
        }),
        root is Uri ==> (executor_cwd(root, cwd, uri, resolved) <==> resolved == executor_cwd_given(
            root,
            cwd,
            uri,
            host_joined,
        )),
        root is Host && executor_cwd(root, cwd, uri, resolved) && (uri.parsed is Some
            || native_absolute(cwd) || resolved is Err) ==> resolved == executor_cwd_given(
            root,
            cwd,
            uri,
            host_joined,
        ),
        root_text(root) == root_path,
        environment_cwd_is(root, Some(cwd), uri, resolved) <==> executor_cwd(
            root,
            cwd,
            uri,
            resolved,
        ),
        environment_cwd_is(root, None, uri, resolved) <==> resolved == Ok::<Seq<char>, Seq<char>>(
            root_path,
        ),
{
    let given = executor_cwd_given(root, cwd, uri, host_joined);
    if root is Uri {
        assert(host_may_join(root, cwd, host_joined) && given == executor_cwd_given(
            root,
            cwd,
            uri,
            host_joined,
        ));
    }
}

/// Binding keeps everything of a configuration but the sources of its variables: the settings, the kind
/// of transport, and the variables' names in their order. In the local environment nothing changes, and
/// elsewhere every variable comes from there.
pub proof fn binding_changes_sources_only(config: ConfigView)
    requires
        bind_outcome(config) is Ok,
    ensures
        ({
            let bound = bind_outcome(config)->Ok_0;
            &&& bound.local_environment == config.local_environment
            &&& bound.settings == config.settings
            &&& config.local_environment ==> bound == config
            &&& match (config.transport, bound.transport) {
                (
                    TransportView::Stdio { env_vars, settings },
                    TransportView::Stdio { env_vars: after, settings: kept },
                ) => {
                    &&& kept == settings
                    &&& after.len() == env_vars.len()
                    &&& !config.local_environment ==> forall|i: int|
                        #![trigger after[i]]
                        0 <= i < after.len() ==> after[i] == (EnvVarView::Config {
                            name: match env_vars[i] {
                                EnvVarView::Name(name) => name,
                                EnvVarView::Config { name, .. } => name,
                            },
                            source: Some(EnvVarSource::Remote),
                        })
                },
                (
                    TransportView::StreamableHttp { settings },
                    TransportView::StreamableHttp { settings: kept },
                ) => kept == settings,
                _ => false,
            }
        }),
{
    let env_vars = stdio_vars(config);
    first_conflict_finds(env_vars, config.local_environment);
    let bound = bind_outcome(config)->Ok_0;
    if config.transport is Stdio {
        assert forall|i: int|
            #![trigger bound.transport->env_vars[i]]
            0 <= i < env_vars.len() && !config.local_environment implies bound.transport->env_vars[i]
            == (EnvVarView::Config {
            name: match env_vars[i] {
                EnvVarView::Name(name) => name,
                EnvVarView::Config { name, .. } => name,
            },
            source: Some(EnvVarSource::Remote),
        }) by {
            assert(!source_conflicts(env_vars[i], config.local_environment));
        }
        if config.local_environment {
            assert(bound.transport->env_vars =~= env_vars);
        }
    }
}

/// Binding fails just if a variable names the source that its environment does not have: the remote one
/// in the local environment, the local one elsewhere. The message names the first such variable. The
/// variables before it are bound, it and the others are left as they are.
pub proof fn binding_fails_at_the_first_wrong_source(
    config: ConfigView,
    env_vars: Seq<EnvVarView>,
    settings: Seq<(Seq<char>, JsonView)>,
    at: int,
    name: Seq<char>,
)
    requires
        config.transport == (TransportView::Stdio { env_vars, settings }),
        0 <= at <= env_vars.len(),
        forall|j: int|
            #![trigger env_vars[j]]
            0 <= j < at ==> env_vars[j] != (EnvVarView::Config {
                name: env_vars[j]->Config_name,
                source: Some(
                    if config.local_environment {
                        EnvVarSource::Remote
                    } else {
                        EnvVarSource::Local
                    },
                ),
            }),
        at < env_vars.len() ==> env_vars[at] == (EnvVarView::Config {
            name,
            source: Some(
                if config.local_environment {
                    EnvVarSource::Remote
                } else {
                    EnvVarSource::Local
                },
            ),
        }),
    ensures
        at == env_vars.len() ==> bind_outcome(config) is Ok,
        at < env_vars.len() ==> bind_outcome(config) == Err::<ConfigView, Seq<char>>(
            if config.local_environment {
                "env_vars entry `"@ + name + "` cannot use source `remote` in a local environment"@
            } else {
                "env_vars entry `"@ + name
                    + "` cannot use source `local` in an executor-owned plugin"@
            },
        ),
        ({
            let left = bound_config(
                config,
                first_conflict(stdio_vars(config), config.local_environment),
            );
            &&& left.local_environment == config.local_environment
            &&& left.settings == config.settings
            &&& left.transport is Stdio
            &&& left.transport->Stdio_settings == settings
            &&& left.transport->env_vars.len() == env_vars.len()
            &&& forall|j: int|
                #![trigger env_vars[j]]
                at <= j < env_vars.len() ==> left.transport->env_vars[j] == env_vars[j]
            &&& forall|j: int|
                #![trigger env_vars[j]]
                0 <= j < at && !config.local_environment ==> left.transport->env_vars[j] == (
                EnvVarView::Config {
                    name: match env_vars[j] {
                        EnvVarView::Name(name) => name,
                        EnvVarView::Config { name, .. } => name,
                    },
                    source: Some(EnvVarSource::Remote),
                })
            &&& forall|j: int|
                #![trigger env_vars[j]]
                0 <= j < at && config.local_environment ==> left.transport->env_vars[j]
                    == env_vars[j]
        }),
{
    let local = config.local_environment;
    assert forall|j: int| #![trigger env_vars[j]] 0 <= j < at implies !source_conflicts(
        env_vars[j],
        local,
    ) by {}
    first_conflict_is(env_vars, local, at);
}

/// Of a decoded configuration nothing is changed under the declared placement, and in an environment it
/// is bound. A message is passed on.
pub proof fn decoded_servers_are_finished(config: McpServerConfig, message: String, environment_id: &str)
    ensures
        finished(Ok(config), PluginMcpServerPlacement::Declared) == Ok::<ConfigView, Seq<char>>(
            config@,
        ),
        finished(Ok(config), PluginMcpServerPlacement::Environment { environment_id })
            == bind_outcome(config@),
        finished(Err(message), PluginMcpServerPlacement::Declared) == Err::<ConfigView, Seq<char>>(
            message@,
        ),
        finished(Err(message), PluginMcpServerPlacement::Environment { environment_id }) == Err::<
            ConfigView,
            Seq<char>,
        >(message@),
{
}

/// A server that is normalized in an environment was decoded from an object that names the environment
/// and holds, under every name but those of the environment, the working directory, the transport type
/// and the OAuth members, what the server declares. If it declares a command and no working directory,
/// the object has the plugin root for one, and if the working directory is a text, what that resolves
/// to. If it declares no command, it has the working directory that is declared.
pub proof fn placed_servers_are_decoded_from_what_they_declare<
    R: Fn(&str) -> PathUriLookup,
    D: Fn(JsonMap) -> Result<McpServerConfig, String>,
>(
    root: PluginMcpRoot<'_>,
    root_path: Seq<char>,
    members: Seq<(Seq<char>, JsonView)>,
    environment_id: &str,
    resolve: R,
    decode: D,
    config: ConfigView,
) -> (origin: (JsonMap, McpServerConfig))
    requires
        match root {
            PluginMcpRoot::Host(path) => root_path == path@,
            PluginMcpRoot::Uri(text) => root_path == text@,
        },
        names_distinct(members),
        server_answers(
            root,
            JsonView::Object(members),
            PluginMcpServerPlacement::Environment { environment_id },
            resolve,
            decode,
            Ok(config),
        ),
    ensures
        call_ensures(decode, (origin.0,), Ok(origin.1)),
        bind_outcome(origin.1@) == Ok::<ConfigView, Seq<char>>(config),
        lookup(origin.0@, "environment_id"@) == Some(JsonView::Text(environment_id@)),
        lookup(origin.0@, "type"@) is None,
        lookup(origin.0@, "oauth"@) == lookup(
            plugin_members(JsonView::Object(members)),
            "oauth"@,
        ),
        lookup(members, "command"@) is Some && (lookup(members, "cwd"@) is None || lookup(
            members,
            "cwd"@,
        ) == Some(JsonView::Null)) ==> lookup(origin.0@, "cwd"@) == Some(
            JsonView::Text(root_path),
        ),
        lookup(members, "command"@) is Some && lookup(members, "cwd"@) is Some && lookup(
            members,
            "cwd"@,
        )->0 is Text ==> {
            &&& lookup(origin.0@, "cwd"@) is Some
            &&& lookup(origin.0@, "cwd"@)->0 is Text
            &&& exists|text: &str, uri: PathUriLookup|
                text@ == lookup(members, "cwd"@)->0->Text_0 && #[trigger] call_ensures(
                    resolve,
                    (text,),
                    uri,
                ) && executor_cwd(
                    root,
                    text@,
                    uri@,
                    Ok(lookup(origin.0@, "cwd"@)->0->Text_0),
                )
        },
        lookup(members, "command"@) is None ==> lookup(origin.0@, "cwd"@) == lookup(
            members,
            "cwd"@,
        ),
        forall|name: Seq<char>|
            name != "environment_id"@ && name != "cwd"@ && name != "type"@ && name != "oauth"@
                ==> #[trigger] lookup(origin.0@, name) == lookup(members, name),
{
    let value = JsonView::Object(members);
    let placement = PluginMcpServerPlacement::Environment { environment_id };
    let result = Ok::<ConfigView, Seq<char>>(config);
    let (object, placed) = choose|
        object: Seq<(Seq<char>, JsonView)>,
        placed: Result<Seq<(Seq<char>, JsonView)>, Seq<char>>,
    |
        declared_object(root, value, placement, object) && #[trigger] placement_answers(
            root,
            object,
            placement,
            resolve,
            placed,
        ) && decode_answers(placed, placement, decode, result);
    let resolved = choose|resolved: Result<Seq<char>, Seq<char>>| #[trigger]
        environment_cwd_answers(root, object, resolve, resolved) && placed == environment_members(
            object,
            environment_id@,
            resolved,
        );
    let kept = placed->Ok_0;
    let (map, decoded) = choose|map: JsonMap, decoded: Result<McpServerConfig, String>|
        map@ == kept && #[trigger] call_ensures(decode, (map,), decoded) && result == finished(
            decoded,
            placement,
        );
    reveal_strlit("environment_id");
    reveal_strlit("command");
    reveal_strlit("cwd");
    reveal_strlit("type");
    reveal_strlit("oauth");
    assert("environment_id"@.len() == 14 && "command"@.len() == 7 && "cwd"@.len() == 3
        && "type"@.len() == 4 && "oauth"@.len() == 5);
    assert forall|name: Seq<char>|
        name != "environment_id"@ && name != "cwd"@ && name != "type"@ && name
            != "oauth"@ implies #[trigger] lookup(map@, name) == lookup(members, name) by {
        normalizing_keeps_other_members(root, members, placement, object, name);
        placing_keeps_other_members(object, environment_id@, resolved, name);
    }
    normalizing_keeps_other_members(root, members, placement, object, "command"@);
    placing_keeps_other_members(object, environment_id@, resolved, "type"@);
    placing_keeps_other_members(object, environment_id@, resolved, "oauth"@);
    (map, decoded->Ok_0)
}

/// A server that is normalized under the declared placement is as it was decoded, from an object that
/// holds, under every name but those of the working directory, the transport type and the OAuth members,
/// what the server declares, and what it declares for a working directory, unless that is a text and the
/// plugin root lies on the host.
pub proof fn declared_servers_are_decoded_from_what_they_declare<
    R: Fn(&str) -> PathUriLookup,
    D: Fn(JsonMap) -> Result<McpServerConfig, String>,
>(
    root: PluginMcpRoot<'_>,
    members: Seq<(Seq<char>, JsonView)>,
    resolve: R,
    decode: D,
    config: ConfigView,
) -> (origin: (JsonMap, McpServerConfig))
    requires
        names_distinct(members),
        server_answers(
            root,
            JsonView::Object(members),
            PluginMcpServerPlacement::Declared,
            resolve,
            decode,
            Ok(config),
        ),
    ensures
        call_ensures(decode, (origin.0,), Ok(origin.1)),
        origin.1@ == config,
        lookup(origin.0@, "type"@) is None,
        lookup(origin.0@, "oauth"@) == lookup(
            plugin_members(JsonView::Object(members)),
            "oauth"@,
        ),
        !(root is Host && lookup(members, "cwd"@) is Some && lookup(members, "cwd"@)->0 is Text)
            ==> lookup(origin.0@, "cwd"@) == lookup(members, "cwd"@),
        forall|name: Seq<char>|
            name != "cwd"@ && name != "type"@ && name != "oauth"@ ==> #[trigger] lookup(
                origin.0@,
                name,
            ) == lookup(members, name),
{
    let value = JsonView::Object(members);
    let placement = PluginMcpServerPlacement::Declared;
    let result = Ok::<ConfigView, Seq<char>>(config);
    let (object, placed) = choose|
        object: Seq<(Seq<char>, JsonView)>,
        placed: Result<Seq<(Seq<char>, JsonView)>, Seq<char>>,
    |
        declared_object(root, value, placement, object) && #[trigger] placement_answers(
            root,
            object,
            placement,
            resolve,
            placed,
        ) && decode_answers(placed, placement, decode, result);
    let kept = placed->Ok_0;
    let (map, decoded) = choose|map: JsonMap, decoded: Result<McpServerConfig, String>|
        map@ == kept && #[trigger] call_ensures(decode, (map,), decoded) && result == finished(
            decoded,
            placement,
        );
    assert forall|name: Seq<char>|
        name != "cwd"@ && name != "type"@ && name != "oauth"@ implies #[trigger] lookup(map@, name)
        == lookup(members, name) by {
        normalizing_keeps_other_members(root, members, placement, object, name);
    }
    normalizing_keeps_other_members(root, members, placement, object, "cwd"@);
    (map, decoded->Ok_0)
}

/// A server that could not be placed is reported with the message of that, and one that was placed with
/// the decoder's, where it has one.
pub proof fn faults_of_servers_are_reported<D: Fn(JsonMap) -> Result<McpServerConfig, String>>(
    placed: Result<Seq<(Seq<char>, JsonView)>, Seq<char>>,
    placement: PluginMcpServerPlacement<'_>,
    decode: D,
    result: Result<ConfigView, Seq<char>>,
    message: Seq<char>,
)
    requires
        decode_answers(placed, placement, decode, result),
    ensures
        placed == Err::<Seq<(Seq<char>, JsonView)>, Seq<char>>(message) ==> result == Err::<
            ConfigView,
            Seq<char>,
        >(message),
        placed is Ok && (forall|object: JsonMap, decoded: Result<McpServerConfig, String>|
            object@ == placed->Ok_0 && #[trigger] call_ensures(decode, (object,), decoded)
                ==> decoded is Err && decoded->Err_0@ == message) ==> result == Err::<
            ConfigView,
            Seq<char>,
        >(message),
{
}

/// The servers that a document declares are the members of the object under `mcpServers`, or those of
/// the document where there is no such object or the name is repeated. Only what is no object declares
/// none.
pub proof fn documents_declare_their_servers(
    members: Seq<(Seq<char>, JsonView)>,
    servers: Seq<(Seq<char>, JsonView)>,
    other: JsonView,
    repeated: bool,
)
    ensures
        lookup(members, "mcpServers"@) == Some(JsonView::Object(servers)) ==> file_servers(
            JsonView::Object(members),
            false,
        ) == Some(servers),
        file_servers(JsonView::Object(members), true) == Some(members),
        lookup(members, "mcpServers"@) is None ==> file_servers(JsonView::Object(members), repeated)
            == Some(members),
        lookup(members, "mcpServers"@) == Some(other) && !(other is Object) ==> file_servers(
            JsonView::Object(members),
            repeated,
        ) == Some(members),
        !(other is Object) ==> file_servers(other, repeated) is None,
{
}

/// A file whose text has two members that read as `mcpServers` declares its own members as servers, and
/// where no two members do, the name is not repeated.
pub proof fn repeated_servers_count_for_nothing(
    contents: Seq<char>,
    members: Seq<(Seq<char>, JsonView)>,
    i: int,
    j: int,
)
    ensures
        ({
            let parts = members_in(encode_utf8(contents));
            &&& 0 <= i < j < parts.len() && json_parse_bytes(parts[i].0) == Some(
                JsonView::Text("mcpServers"@),
            ) && json_parse_bytes(parts[j].0) == Some(JsonView::Text("mcpServers"@)) ==> {
                &&& servers_repeated(contents)
                &&& file_servers(JsonView::Object(members), servers_repeated(contents)) == Some(
                    members,
                )
            }
            &&& (forall|k: int|
                #![trigger parts[k]]
                0 <= k < parts.len() && k != i ==> json_parse_bytes(parts[k].0) != Some(
                    JsonView::Text("mcpServers"@),
                )) ==> !servers_repeated(contents)
        }),
{
    let text = encode_utf8(contents);
    let parts = members_in(text);
    if 0 <= i < j < parts.len() && json_parse_bytes(parts[i].0) == Some(
        JsonView::Text("mcpServers"@),
    ) {
        fields_are_those_of_their_members(text, "mcpServers"@, i, j, JsonView::Null);
    }
    if forall|k: int|
        #![trigger parts[k]]
        0 <= k < parts.len() && k != i ==> json_parse_bytes(parts[k].0) != Some(
            JsonView::Text("mcpServers"@),
        ) {
        if 0 <= i < parts.len() && json_parse_bytes(parts[i].0) == Some(
            JsonView::Text("mcpServers"@),
        ) {
            fields_are_those_of_their_members(text, "mcpServers"@, i, i, JsonView::Null);
        } else {
            missing_names_have_no_field(text, "mcpServers"@);
        }
    }
}

/// Results are told apart in their order: a normalized server stands behind as many normalized ones as
/// came before it, and an error behind as many errors.
pub proof fn results_keep_their_order(
    results: Seq<(Seq<char>, Result<ConfigView, Seq<char>>)>,
    at: int,
)
    requires
        0 <= at < results.len(),
    ensures
        accepted(results.take(at)).len() + rejected(results.take(at)).len() == at,
        match results[at].1 {
            Ok(config) => {
                &&& accepted(results.take(at)).len() < accepted(results).len()
                &&& accepted(results)[accepted(results.take(at)).len() as int] == (
                    results[at].0,
                    config,
                )
            },
            Err(message) => {
                &&& rejected(results.take(at)).len() < rejected(results).len()
                &&& rejected(results)[rejected(results.take(at)).len() as int] == (
                    results[at].0,
                    message,
                )
            },
        },
    decreases results.len(),
{
    let rest = results.drop_last();
    if at < rest.len() {
        results_keep_their_order(rest, at);
        assert(rest.take(at) =~= results.take(at));
        assert(rest[at] == results[at]);
    } else {
        assert(results.take(at) =~= rest);
        if rest.len() > 0 {
            every_server_is_accounted_for(rest, 0);
        }
    }
}

/// A text that is not JSON, and a document of another shape, is an error of the file as a whole, and
/// nothing else is.
pub proof fn only_malformed_files_fail<
    R: Fn(&str) -> PathUriLookup,
    D: Fn(JsonMap) -> Result<McpServerConfig, String>,
>(
    root: PluginMcpRoot<'_>,
    contents: Seq<char>,
    placement: PluginMcpServerPlacement<'_>,
    resolve: R,
    decode: D,
    result: Result<PluginMcpConfigParseOutcome, PluginMcpConfigError>,
)
    requires
        parse_answers(root, contents, placement, resolve, decode, result),
    ensures
        match json_parse(contents) {
            Err(message) => {
                &&& result is Err
                &&& result->Err_0 is Json
                &&& result->Err_0->Json_0@ == message
            },
            Ok(document) => if document is Object {
                result is Ok
            } else {
                result is Err && result->Err_0 is Shape
            },
        },
{
}

/// Every server that a file declares is in the outcome under its name, normalized or as an error, and
/// nothing else is.
pub proof fn declared_servers_are_in_the_outcome<
    R: Fn(&str) -> PathUriLookup,
    D: Fn(JsonMap) -> Result<McpServerConfig, String>,
>(
    root: PluginMcpRoot<'_>,
    document: JsonView,
    servers: Seq<(Seq<char>, JsonView)>,
    repeated: bool,
    placement: PluginMcpServerPlacement<'_>,
    resolve: R,
    decode: D,
    outcome: PluginMcpConfigParseOutcome,
    name: Seq<char>,
)
    requires
        file_servers(document, repeated) == Some(servers),
        names_distinct(servers),
        document_answers(root, document, repeated, placement, resolve, decode, Ok(outcome)),
    ensures
        lookup(servers, name) is Some <==> {
            ||| exists|i: int|
                0 <= i < outcome.servers@.len() && (#[trigger] outcome.servers@[i]).0 == name
            ||| exists|i: int|
                0 <= i < outcome.errors@.len() && (#[trigger] outcome.errors@[i]).name@ == name
        },
        outcome.servers@.len() + outcome.errors@.len() == in_order(servers).len(),
{
    let declared = in_order(servers);
    let results = choose|results: Seq<(Seq<char>, Result<ConfigView, Seq<char>>)>| #[trigger]
        results_answer(root, declared, placement, resolve, decode, results) && outcome_holds(
            outcome,
            results,
        );
    in_order_lookup(servers, name);
    position_finds(declared, name);
    if results.len() > 0 {
        every_server_is_accounted_for(results, 0);
    }
    assert(config_members(outcome.servers@).len() == outcome.servers@.len());
    assert(error_views(outcome.errors@).len() == outcome.errors@.len());
    if has_name(declared, name) {
        let at = position(declared, name);
        results_keep_their_order(results, at);
        assert(results[at].0 == name);
        if results[at].1 is Ok {
            let i = accepted(results.take(at)).len() as int;
            assert(config_members(outcome.servers@)[i].0 == outcome.servers@[i].0);
        } else {
            let i = rejected(results.take(at)).len() as int;
            assert(error_views(outcome.errors@)[i].0 == outcome.errors@[i].name@);
        }
    }
    assert forall|i: int|
        0 <= i < outcome.servers@.len() && (#[trigger] outcome.servers@[i]).0
            == name implies has_name(declared, name) by {
        assert(config_members(outcome.servers@)[i].0 == name);
        accepted_names(results, i);
        let j = choose|j: int|
            #![trigger results[j]]
            0 <= j < results.len() && results[j].0 == accepted(results)[i].0 && results[j].1
                == Ok::<ConfigView, Seq<char>>(accepted(results)[i].1);
        assert(declared[j].0 == name);
    }
    assert forall|i: int|
        0 <= i < outcome.errors@.len() && (#[trigger] outcome.errors@[i]).name@
            == name implies has_name(declared, name) by {
        assert(error_views(outcome.errors@)[i].0 == name);
        rejected_names(results, i);
        let j = choose|j: int|
            #![trigger results[j]]
            0 <= j < results.len() && results[j].0 == rejected(results)[i].0;
        assert(declared[j].0 == name);
    }
}

/// Every name of the reported servers is a name of a result.
proof fn rejected_names(results: Seq<(Seq<char>, Result<ConfigView, Seq<char>>)>, at: int)
    requires
        0 <= at < rejected(results).len(),
    ensures
        exists|j: int|
            #![trigger results[j]]
            0 <= j < results.len() && results[j].0 == rejected(results)[at].0,
    decreases results.len(),
{
    let rest = results.drop_last();
    if at < rejected(rest).len() {
        rejected_names(rest, at);
        let j = choose|j: int|
            #![trigger rest[j]]
            0 <= j < rest.len() && rest[j].0 == rejected(rest)[at].0;
        assert(results[j] == rest[j]);
    } else {
        assert(results[results.len() - 1] == results.last());
    }
}

/// A declared server earns a notice of its transport type just if that is a text and none of the four
/// known ones, and then one of its callback port just if its OAuth members name one.
pub proof fn notices_are_earned(members: Seq<(Seq<char>, JsonView)>, value: JsonView)
    ensures
        ({
            let earned = earned_notices(JsonView::Object(members));
            let of_type = match lookup(members, "type"@) {
                Some(JsonView::Text(transport)) => !(transport == "http"@ || transport
                    == "streamable_http"@ || transport == "streamable-http"@ || transport
                    == "stdio"@),
                _ => false,
            };
            let of_port = match lookup(members, "oauth"@) {
                Some(JsonView::Object(oauth)) => lookup(oauth, "callbackPort"@) is Some,
                _ => false,
            };
            &&& earned.len() == (if of_type { 1int } else { 0 }) + (if of_port { 1int } else { 0 })
            &&& of_type ==> earned[0] == NoticeView::UnknownTransportType(
                lookup(members, "type"@)->0->Text_0,
            )
            &&& of_port ==> earned.last() is CallbackPortIgnored
        }),
        !(value is Object) ==> earned_notices(value).len() == 0,
{
}

/// The notices of a file are those of its servers, one server after the other in the order of their
/// names.
pub proof fn notices_follow_the_servers(
    contents: Seq<char>,
    document: JsonView,
    servers: Seq<(Seq<char>, JsonView)>,
    next: (Seq<char>, JsonView),
)
    ensures
        all_notices(Seq::empty()).len() == 0,
        all_notices(servers.push(next)) == all_notices(servers) + earned_notices(next.1),
        json_parse(contents) is Err ==> file_notices(contents).len() == 0,
        json_parse(contents) == parsed(document) && file_servers(
            document,
            servers_repeated(contents),
        ) == Some(servers) ==> file_notices(contents) == all_notices(in_order(servers)),
        json_parse(contents) == parsed(document) && !(document is Object) ==> file_notices(
            contents,
        ).len() == 0,
{
    assert(servers.push(next).drop_last() =~= servers);
}

/// Contracts see servers, errors, variables and notices as they are, in their order.
pub proof fn outcomes_are_seen_as_they_are(
    servers: Seq<(Seq<char>, McpServerConfig)>,
    errors: Seq<PluginMcpServerParseError>,
    env_vars: Seq<McpServerEnvVar>,
    notices: Seq<PluginMcpNotice>,
)
    ensures
        config_members(servers).len() == servers.len(),
        forall|i: int|
            0 <= i < servers.len() ==> config_members(servers)[i] == (
                (#[trigger] servers[i]).0,
                servers[i].1@,
            ),
        error_views(errors).len() == errors.len(),
        forall|i: int|
            0 <= i < errors.len() ==> error_views(errors)[i] == (
                (#[trigger] errors[i]).name@,
                errors[i].message@,
            ),
        env_var_views(env_vars).len() == env_vars.len(),
        forall|i: int|
            #![trigger env_vars[i]]
            0 <= i < env_vars.len() ==> env_var_views(env_vars)[i] == match env_vars[i] {
                McpServerEnvVar::Name(name) => EnvVarView::Name(name@),
                McpServerEnvVar::Config { name, source } => EnvVarView::Config {
                    name: name@,
                    source,
                },
            },
        notice_views(notices).len() == notices.len(),
        forall|i: int|
            #![trigger notices[i]]
            0 <= i < notices.len() ==> notice_views(notices)[i] == match notices[i] {
                PluginMcpNotice::UnknownTransportType(transport) =>
                    NoticeView::UnknownTransportType(transport@),
                PluginMcpNotice::CallbackPortIgnored => NoticeView::CallbackPortIgnored,
            },
{
}

}
