//! Requests that register execution environments.
//!
//! The manager that keeps the environments is not part of this crate. A request is turned into a
//! registration, and what the manager says of it into the answer.

use std::collections::HashMap;
use std::sync::Arc;

use vstd::prelude::*;

use crate::text::option_view;

verus! {

/// Registers an environment that is reached over a WebSocket.
#[derive(Debug, PartialEq)]
pub struct EnvironmentAddParams {
    pub environment_id: String,
    pub exec_server_url: String,
    /// Optional WebSocket connection timeout. The server default applies when omitted.
    pub connect_timeout_ms: Option<u64>,
}

/// The environment was registered.
#[derive(Debug, PartialEq, Eq)]
pub struct EnvironmentAddResponse {}

/// Registers an environment, or replaces it.
#[derive(Debug, PartialEq)]
pub struct EnvironmentUpsertParams {
    pub environment_id: String,
    pub transport: EnvironmentTransportParams,
}

/// A path as clients write it.
#[derive(Debug, PartialEq, Eq)]
pub struct LegacyAppPathString(pub String);

/// How an environment is reached.
#[derive(Debug, PartialEq)]
pub enum EnvironmentTransportParams {
    Websocket {
        exec_server_url: String,
        /// Optional WebSocket connection timeout. The server default applies when omitted.
        connect_timeout_ms: Option<u64>,
    },
    Stdio {
        program: String,
        args: Option<Vec<String>>,
        env: Option<HashMap<String, String>>,
        cwd: Option<LegacyAppPathString>,
        /// Optional stdio initialize timeout. The server default applies when omitted.
        initialize_timeout_ms: Option<u64>,
    },
}

/// The environment was registered.
#[derive(Debug, PartialEq, Eq)]
pub struct EnvironmentUpsertResponse {}

/// What the manager is asked to register.
#[derive(Debug, PartialEq)]
pub enum EnvironmentRegistration {
    Websocket { environment_id: String, exec_server_url: String, connect_timeout_ms: Option<u64> },
    Stdio {
        environment_id: String,
        program: String,
        args: Vec<String>,
        env: HashMap<String, String>,
        /// An absolute path.
        cwd: Option<String>,
        initialize_timeout_ms: Option<u64>,
    },
}

/// The answer to a request.
#[derive(Debug, PartialEq, Eq)]
pub enum ClientResponsePayload {
    EnvironmentAdd(EnvironmentAddResponse),
    EnvironmentUpsert(EnvironmentUpsertResponse),
}

/// Why a request was refused.
#[derive(Debug, PartialEq, Eq)]
pub enum RequestError {
    /// The request is at fault, for this reason.
    InvalidRequest(String),
}

/// Answers the requests that register environments.
pub struct EnvironmentRequestProcessor<M> {
    pub environment_manager: Arc<M>,
}

/// What is registered for a request to add an environment.
pub open spec fn added(params: EnvironmentAddParams, registration: EnvironmentRegistration) -> bool {
    &&& registration matches EnvironmentRegistration::Websocket {
        environment_id,
        exec_server_url,
        connect_timeout_ms,
    }
    &&& environment_id == params.environment_id
    &&& exec_server_url == params.exec_server_url
    &&& connect_timeout_ms == params.connect_timeout_ms
}

/// The working directory that a transport asks for.
pub open spec fn wanted_cwd(transport: EnvironmentTransportParams) -> Option<LegacyAppPathString> {
    match transport {
        EnvironmentTransportParams::Websocket { .. } => None,
        EnvironmentTransportParams::Stdio { cwd, .. } => cwd,
    }
}

/// What is registered for a request, with its working directory made absolute. Arguments and
/// variables that are left out are none.
pub open spec fn upserted(
    params: EnvironmentUpsertParams,
    absolute_cwd: Option<Seq<char>>,
    registration: EnvironmentRegistration,
) -> bool {
    match (params.transport, registration) {
        (
            EnvironmentTransportParams::Websocket { exec_server_url, connect_timeout_ms },
            EnvironmentRegistration::Websocket {
                environment_id,
                exec_server_url: url,
                connect_timeout_ms: timeout,
            },
        ) => {
            &&& environment_id == params.environment_id
            &&& url == exec_server_url
            &&& timeout == connect_timeout_ms
        },
        (
            EnvironmentTransportParams::Stdio { program, args, env, cwd: _, initialize_timeout_ms },
            EnvironmentRegistration::Stdio {
                environment_id,
                program: command,
                args: arguments,
                env: variables,
                cwd: directory,
                initialize_timeout_ms: timeout,
            },
        ) => {
            &&& environment_id == params.environment_id
            &&& command == program
            &&& match args {
                Some(args) => arguments == args,
                None => arguments@ == Seq::<String>::empty(),
            }
            &&& match env {
                Some(env) => variables == env,
                None => variables@ == Map::<String, String>::empty(),
            }
            &&& option_view(directory) == absolute_cwd
            &&& timeout == initialize_timeout_ms
        },
        _ => false,
    }
}

/// The answer when the manager has spoken.
pub open spec fn answered_with(
    reply: Result<(), String>,
    payload: ClientResponsePayload,
    result: Result<Option<ClientResponsePayload>, RequestError>,
) -> bool {
    match (reply, result) {
        (Ok(_), Ok(answer)) => answer == Some(payload),
        (Err(reason), Err(RequestError::InvalidRequest(message))) => message@ == reason@,
        _ => false,
    }
}

/// Whether this is the working directory to register for a request: none where none is wanted,
/// else one that the wanted directory resolves to.
pub open spec fn cwd_settled<R: Fn(&LegacyAppPathString) -> Result<String, String>>(
    params: EnvironmentUpsertParams,
    resolve: &R,
    absolute_cwd: Option<Seq<char>>,
) -> bool {
    match wanted_cwd(params.transport) {
        None => absolute_cwd is None,
        Some(cwd) => exists|absolute: String|
            #![trigger call_ensures(*resolve, (&cwd,), Ok::<String, String>(absolute))]
            call_ensures(*resolve, (&cwd,), Ok::<String, String>(absolute)) && absolute_cwd == Some(
                absolute@,
            ),
    }
}

/// What a request to replace an environment may be answered, given what the working directory
/// may be resolved to and what the manager may say. A working directory that cannot be made
/// absolute is refused.
pub open spec fn upsert_answers<
    R: Fn(&LegacyAppPathString) -> Result<String, String>,
    G: FnOnce(EnvironmentRegistration) -> Result<(), String>,
>(
    params: EnvironmentUpsertParams,
    resolve: &R,
    register: G,
    result: Result<Option<ClientResponsePayload>, RequestError>,
) -> bool {
    match wanted_cwd(params.transport) {
        None => register_answers(params, None, register, result),
        Some(cwd) => exists|resolved: Result<String, String>|
            #![trigger call_ensures(*resolve, (&cwd,), resolved)]
            call_ensures(*resolve, (&cwd,), resolved) && match resolved {
                Ok(absolute) => register_answers(params, Some(absolute@), register, result),
                Err(reason) => refused(reason@, result),
            },
    }
}

/// What a request may be answered once its working directory is known.
pub open spec fn register_answers<G: FnOnce(EnvironmentRegistration) -> Result<(), String>>(
    params: EnvironmentUpsertParams,
    absolute_cwd: Option<Seq<char>>,
    register: G,
    result: Result<Option<ClientResponsePayload>, RequestError>,
) -> bool {
    exists|registration: EnvironmentRegistration, reply: Result<(), String>|
        #![trigger call_ensures(register, (registration,), reply)]
        {
            &&& upserted(params, absolute_cwd, registration)
            &&& call_ensures(register, (registration,), reply)
            &&& answered_with(
                reply,
                ClientResponsePayload::EnvironmentUpsert(EnvironmentUpsertResponse {  }),
                result,
            )
        }
}

/// A request that is refused for a reason.
pub open spec fn refused(
    reason: Seq<char>,
    result: Result<Option<ClientResponsePayload>, RequestError>,
) -> bool {
    result matches Err(RequestError::InvalidRequest(message)) && message@ == reason
}

/// Turns what the manager says into the answer.
pub fn finish_registration(reply: Result<(), String>, payload: ClientResponsePayload) -> (result:
    Result<Option<ClientResponsePayload>, RequestError>)
    ensures
        answered_with(reply, payload, result),
{
    match reply {
        Ok(_) => Ok(Some(payload)),
        Err(reason) => Err(RequestError::InvalidRequest(reason)),
    }
}

/// What to register for a request, with its working directory made absolute.
pub fn upsert_registration(params: EnvironmentUpsertParams, absolute_cwd: Option<String>) -> (registration:
    EnvironmentRegistration)
    ensures
        upserted(params, option_view(absolute_cwd), registration),
{
    let EnvironmentUpsertParams { environment_id, transport } = params;
    match transport {
        EnvironmentTransportParams::Websocket { exec_server_url, connect_timeout_ms } => {
            EnvironmentRegistration::Websocket {
                environment_id,
                exec_server_url,
                connect_timeout_ms,
            }
        },
        EnvironmentTransportParams::Stdio { program, args, env, cwd: _, initialize_timeout_ms } => {
            let args = match args {
                Some(args) => args,
                None => Vec::new(),
            };
            let env = match env {
                Some(env) => env,
                None => HashMap::new(),
            };
            EnvironmentRegistration::Stdio {
                environment_id,
                program,
                args,
                env,
                cwd: absolute_cwd,
                initialize_timeout_ms,
            }
        },
    }
}

impl<M> EnvironmentRequestProcessor<M> {
    /// A processor for the environments of a manager.
    pub fn new(environment_manager: Arc<M>) -> (processor: Self)
        ensures
            processor.environment_manager == environment_manager,
    {
        EnvironmentRequestProcessor { environment_manager }
    }

    /// Registers an environment that is reached over a WebSocket.
    pub fn environment_add<G: FnOnce(EnvironmentRegistration) -> Result<(), String>>(
        &self,
        params: EnvironmentAddParams,
        register: G,
    ) -> (result: Result<Option<ClientResponsePayload>, RequestError>)
        requires
            forall|registration: EnvironmentRegistration| #[trigger]
                added(params, registration) ==> call_requires(register, (registration,)),
        ensures
            exists|registration: EnvironmentRegistration, reply: Result<(), String>|
                #![trigger call_ensures(register, (registration,), reply)]
                {
                    &&& added(params, registration)
                    &&& call_ensures(register, (registration,), reply)
                    &&& answered_with(
                        reply,
                        ClientResponsePayload::EnvironmentAdd(EnvironmentAddResponse {  }),
                        result,
                    )
                },
    {
        let registration = EnvironmentRegistration::Websocket {
            environment_id: params.environment_id,
            exec_server_url: params.exec_server_url,
            connect_timeout_ms: params.connect_timeout_ms,
        };
        assert(added(params, registration));
        let reply = register(registration);
        finish_registration(
            reply,
            ClientResponsePayload::EnvironmentAdd(EnvironmentAddResponse {  }),
        )
    }

    /// Registers an environment, or replaces it, over either transport. Nothing is registered but
    /// what the request asks for, with a working directory that was made absolute: `register` need
    /// not take anything else.
    pub fn environment_upsert<
        R: Fn(&LegacyAppPathString) -> Result<String, String>,
        G: FnOnce(EnvironmentRegistration) -> Result<(), String>,
    >(&self, params: EnvironmentUpsertParams, resolve: &R, register: G) -> (result: Result<
        Option<ClientResponsePayload>,
        RequestError,
    >)
        requires
            wanted_cwd(params.transport) matches Some(cwd) ==> call_requires(*resolve, (&cwd,)),
            forall|registration: EnvironmentRegistration, absolute_cwd: Option<Seq<char>>|
                #[trigger]
                upserted(params, absolute_cwd, registration) && cwd_settled(
                    params,
                    resolve,
                    absolute_cwd,
                ) ==> call_requires(register, (registration,)),
        ensures
            upsert_answers(params, resolve, register, result),
    {
        let absolute_cwd = match &params.transport {
            EnvironmentTransportParams::Stdio { cwd: Some(cwd), .. } => match resolve(cwd) {
                Ok(absolute) => Some(absolute),
                Err(reason) => {
                    return Err(RequestError::InvalidRequest(reason));
                },
            },
            _ => None,
        };
        let ghost asked = params;
        let registration = upsert_registration(params, absolute_cwd);
        assert(upserted(asked, option_view(absolute_cwd), registration));
        assert(cwd_settled(asked, resolve, option_view(absolute_cwd)));
        let reply = register(registration);
        let result = finish_registration(
            reply,
            ClientResponsePayload::EnvironmentUpsert(EnvironmentUpsertResponse {  }),
        );
        assert(register_answers(asked, option_view(absolute_cwd), register, result));
        result
    }
}

/// Adding an environment registers just what replacing it over the WebSocket transport does.
pub proof fn add_registers_like_websocket_upsert(
    params: EnvironmentAddParams,
    registration: EnvironmentRegistration,
)
    ensures
        added(params, registration) <==> upserted(
            EnvironmentUpsertParams {
                environment_id: params.environment_id,
                transport: EnvironmentTransportParams::Websocket {
                    exec_server_url: params.exec_server_url,
                    connect_timeout_ms: params.connect_timeout_ms,
                },
            },
            None,
            registration,
        ),
{
}

/// What is registered over the WebSocket transport is what was asked for: the environment, the URL and
/// the timeout.
pub proof fn websocket_registration_has_what_was_asked(
    params: EnvironmentAddParams,
    registration: EnvironmentRegistration,
)
    requires
        added(params, registration),
    ensures
        registration == (EnvironmentRegistration::Websocket {
            environment_id: params.environment_id,
            exec_server_url: params.exec_server_url,
            connect_timeout_ms: params.connect_timeout_ms,
        }),
{
}

/// What is registered over stdio is what was asked for: the environment, the program, all its arguments
/// in order, all its variables, the timeout, and the working directory that was made absolute. Arguments
/// and variables that are left out are none.
pub proof fn stdio_registration_has_what_was_asked(
    params: EnvironmentUpsertParams,
    absolute_cwd: Option<Seq<char>>,
    registration: EnvironmentRegistration,
)
    requires
        upserted(params, absolute_cwd, registration),
        params.transport is Stdio,
    ensures
        registration is Stdio,
        registration->Stdio_environment_id == params.environment_id,
        registration->program == params.transport->program,
        match params.transport->args {
            Some(args) => registration->args@ == args@,
            None => registration->args@.len() == 0,
        },
        match params.transport->env {
            Some(env) => registration->env@ == env@,
            None => registration->env@.dom() == Set::<String>::empty(),
        },
        registration->initialize_timeout_ms == params.transport->initialize_timeout_ms,
        match (registration->cwd, absolute_cwd) {
            (Some(registered), Some(absolute)) => registered@ == absolute,
            (None, None) => true,
            _ => false,
        },
{
}

/// A request is answered with its payload if the manager takes the registration, and refused with the
/// manager's own words if it does not.
pub proof fn managers_are_quoted(
    payload: ClientResponsePayload,
    reason: String,
    result: Result<Option<ClientResponsePayload>, RequestError>,
)
    ensures
        answered_with(Ok(()), payload, result) <==> result == Ok::<
            Option<ClientResponsePayload>,
            RequestError,
        >(Some(payload)),
        answered_with(Err(reason), payload, result) <==> result is Err
            && result->Err_0->InvalidRequest_0@ == reason@,
{
}

/// A working directory that cannot be made absolute refuses the request, with the reason.
pub proof fn unresolved_cwd_refuses_the_request<
    R: Fn(&LegacyAppPathString) -> Result<String, String>,
    G: FnOnce(EnvironmentRegistration) -> Result<(), String>,
>(
    params: EnvironmentUpsertParams,
    cwd: LegacyAppPathString,
    resolve: &R,
    register: G,
    result: Result<Option<ClientResponsePayload>, RequestError>,
    reason: Seq<char>,
)
    requires
        params.transport is Stdio,
        params.transport->cwd == Some(cwd),
        forall|resolved: Result<String, String>| #[trigger]
            call_ensures(*resolve, (&cwd,), resolved) ==> resolved is Err && resolved->Err_0@
                == reason,
        upsert_answers(params, resolve, register, result),
    ensures
        result is Err,
        result->Err_0->InvalidRequest_0@ == reason,
{
}

/// A request whose working directory is none, or can be made absolute, is answered as the manager answers
/// the one registration that the request asks for.
pub proof fn upsert_asks_the_manager<
    R: Fn(&LegacyAppPathString) -> Result<String, String>,
    G: FnOnce(EnvironmentRegistration) -> Result<(), String>,
>(
    params: EnvironmentUpsertParams,
    resolve: &R,
    register: G,
    result: Result<Option<ClientResponsePayload>, RequestError>,
) -> (asked: (EnvironmentRegistration, Result<(), String>, Option<Seq<char>>))
    requires
        params.transport is Stdio && params.transport->cwd is Some ==> forall|
            resolved: Result<String, String>,
        | #[trigger]
            call_ensures(*resolve, (&params.transport->cwd->0,), resolved) ==> resolved is Ok,
        upsert_answers(params, resolve, register, result),
    ensures
        ({
            let (registration, reply, absolute_cwd) = asked;
            &&& call_ensures(register, (registration,), reply)
            &&& upserted(params, absolute_cwd, registration)
            &&& params.transport is Stdio && params.transport->cwd is Some ==> exists|
                absolute: String,
            |
                absolute_cwd == Some(absolute@) && #[trigger] call_ensures(
                    *resolve,
                    (&params.transport->cwd->0,),
                    Ok::<String, String>(absolute),
                )
            &&& !(params.transport is Stdio && params.transport->cwd is Some) ==> absolute_cwd
                is None
            &&& reply is Ok ==> result == Ok::<Option<ClientResponsePayload>, RequestError>(
                Some(ClientResponsePayload::EnvironmentUpsert(EnvironmentUpsertResponse {  })),
            )
            &&& reply is Err ==> result is Err && result->Err_0->InvalidRequest_0@ == reply->Err_0@
        }),
{
    let absolute_cwd = match wanted_cwd(params.transport) {
        None => None,
        Some(cwd) => {
            let resolved = choose|resolved: Result<String, String>|
                #![trigger call_ensures(*resolve, (&cwd,), resolved)]
                call_ensures(*resolve, (&cwd,), resolved) && match resolved {
                    Ok(absolute) => register_answers(params, Some(absolute@), register, result),
                    Err(reason) => refused(reason@, result),
                };
            Some(resolved->Ok_0@)
        },
    };
    let (registration, reply) = choose|
        registration: EnvironmentRegistration,
        reply: Result<(), String>,
    |
        #![trigger call_ensures(register, (registration,), reply)]
        {
            &&& upserted(params, absolute_cwd, registration)
            &&& call_ensures(register, (registration,), reply)
            &&& answered_with(
                reply,
                ClientResponsePayload::EnvironmentUpsert(EnvironmentUpsertResponse {  }),
                result,
            )
        };
    (registration, reply, absolute_cwd)
}

}
