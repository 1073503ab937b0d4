use std::cell::RefCell;
use std::collections::HashMap;
use std::sync::Arc;

use codex_runtime::environment::{
    finish_registration, upsert_registration, ClientResponsePayload, EnvironmentAddParams,
    EnvironmentAddResponse, EnvironmentRegistration, EnvironmentRequestProcessor,
    EnvironmentTransportParams, EnvironmentUpsertParams, EnvironmentUpsertResponse,
    LegacyAppPathString, RequestError,
};

struct Manager;

fn processor() -> EnvironmentRequestProcessor<Manager> {
    EnvironmentRequestProcessor::new(Arc::new(Manager))
}

fn websocket(connect_timeout_ms: Option<u64>) -> EnvironmentRegistration {
    EnvironmentRegistration::Websocket {
        environment_id: "env".to_string(),
        exec_server_url: "ws://x".to_string(),
        connect_timeout_ms,
    }
}

fn stdio(cwd: Option<&str>) -> EnvironmentUpsertParams {
    EnvironmentUpsertParams {
        environment_id: "env".to_string(),
        transport: EnvironmentTransportParams::Stdio {
            program: "ssh".to_string(),
            args: None,
            env: None,
            cwd: cwd.map(|cwd| LegacyAppPathString(cwd.to_string())),
            initialize_timeout_ms: Some(250),
        },
    }
}

fn absolute(path: &LegacyAppPathString) -> Result<String, String> {
    if path.0.starts_with('/') {
        Ok(path.0.clone())
    } else {
        Err(format!("path is not absolute: {}", path.0))
    }
}

#[test]
fn processors_keep_their_manager() {
    let manager = Arc::new(Manager);
    let processor = EnvironmentRequestProcessor::new(Arc::clone(&manager));
    assert!(Arc::ptr_eq(&manager, &processor.environment_manager));
}

#[test]
fn adding_registers_a_websocket_environment() {
    let seen = RefCell::new(Vec::new());
    let result = processor().environment_add(
        EnvironmentAddParams {
            environment_id: "env".to_string(),
            exec_server_url: "ws://x".to_string(),
            connect_timeout_ms: Some(1500),
        },
        |registration| {
            seen.borrow_mut().push(registration);
            Ok(())
        },
    );
    assert_eq!(
        result,
        Ok(Some(ClientResponsePayload::EnvironmentAdd(EnvironmentAddResponse {})))
    );
    assert_eq!(seen.into_inner(), vec![websocket(Some(1500))]);
}

#[test]
fn what_the_manager_refuses_is_an_invalid_request() {
    let result = processor().environment_add(
        EnvironmentAddParams {
            environment_id: "local".to_string(),
            exec_server_url: "ws://x".to_string(),
            connect_timeout_ms: None,
        },
        |_| Err("reserved id".to_string()),
    );
    assert_eq!(result, Err(RequestError::InvalidRequest("reserved id".to_string())));
    let upsert = processor().environment_upsert(stdio(None), &absolute, |_| Err("no".to_string()));
    assert_eq!(upsert, Err(RequestError::InvalidRequest("no".to_string())));
}

#[test]
fn replacing_over_a_websocket_registers_what_adding_does() {
    let seen = RefCell::new(Vec::new());
    let result = processor().environment_upsert(
        EnvironmentUpsertParams {
            environment_id: "env".to_string(),
            transport: EnvironmentTransportParams::Websocket {
                exec_server_url: "ws://x".to_string(),
                connect_timeout_ms: None,
            },
        },
        &absolute,
        |registration| {
            seen.borrow_mut().push(registration);
            Ok(())
        },
    );
    assert_eq!(
        result,
        Ok(Some(ClientResponsePayload::EnvironmentUpsert(EnvironmentUpsertResponse {})))
    );
    assert_eq!(seen.into_inner(), vec![websocket(None)]);
}

#[test]
fn arguments_and_variables_that_are_left_out_are_none() {
    let seen = RefCell::new(Vec::new());
    let result = processor().environment_upsert(stdio(Some("/work")), &absolute, |registration| {
        seen.borrow_mut().push(registration);
        Ok(())
    });
    assert!(result.is_ok());
    assert_eq!(
        seen.into_inner(),
        vec![EnvironmentRegistration::Stdio {
            environment_id: "env".to_string(),
            program: "ssh".to_string(),
            args: Vec::new(),
            env: HashMap::new(),
            cwd: Some("/work".to_string()),
            initialize_timeout_ms: Some(250),
        }]
    );
}

#[test]
fn arguments_and_variables_are_passed_on() {
    let env = HashMap::from([("A".to_string(), "1".to_string())]);
    let registration = upsert_registration(
        EnvironmentUpsertParams {
            environment_id: "env".to_string(),
            transport: EnvironmentTransportParams::Stdio {
                program: "ssh".to_string(),
                args: Some(vec!["host".to_string(), "codex".to_string()]),
                env: Some(env.clone()),
                cwd: None,
                initialize_timeout_ms: None,
            },
        },
        None,
    );
    assert_eq!(
        registration,
        EnvironmentRegistration::Stdio {
            environment_id: "env".to_string(),
            program: "ssh".to_string(),
            args: vec!["host".to_string(), "codex".to_string()],
            env,
            cwd: None,
            initialize_timeout_ms: None,
        }
    );
}

#[test]
fn a_relative_directory_is_refused_before_anything_is_registered() {
    let called = RefCell::new(false);
    let result = processor().environment_upsert(stdio(Some("work")), &absolute, |_| {
        *called.borrow_mut() = true;
        Ok(())
    });
    assert_eq!(
        result,
        Err(RequestError::InvalidRequest("path is not absolute: work".to_string()))
    );
    assert!(!called.into_inner());
}

#[test]
fn registrations_are_answered_with_their_payload() {
    let payload = || ClientResponsePayload::EnvironmentAdd(EnvironmentAddResponse {});
    assert_eq!(finish_registration(Ok(()), payload()), Ok(Some(payload())));
    assert_eq!(
        finish_registration(Err("x".to_string()), payload()),
        Err(RequestError::InvalidRequest("x".to_string()))
    );
}
