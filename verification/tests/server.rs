use noctiforge_worker::config::ServerConfig;
use noctiforge_worker::error::WorkerError;
use noctiforge_worker::server::{respond, ExecuteRequest, FunctionWorker, WorkerServer};
use std::cell::RefCell;
use std::sync::Arc;

struct Echo {
    fails_with: Option<WorkerError>,
    seen: RefCell<Vec<(String, String)>>,
}

impl FunctionWorker for Echo {
    fn execute(&self, instance_id: String, payload: String) -> Result<String, WorkerError> {
        self.seen.borrow_mut().push((instance_id.clone(), payload.clone()));
        match self.fails_with {
            Some(e) => Err(e),
            None => Ok(format!("{}:{}", instance_id, payload)),
        }
    }
}

fn request(instance_id: &str, payload: &str) -> ExecuteRequest {
    ExecuteRequest { instance_id: instance_id.to_string(), payload: payload.to_string() }
}

#[test]
fn execute_answers_with_the_reply_of_the_sandbox() {
    let worker = Arc::new(Echo { fails_with: None, seen: RefCell::new(Vec::new()) });
    let server = WorkerServer::new(worker.clone());
    let response = server.execute(request("abc123", "ping")).ok().unwrap();
    assert_eq!(response.status, "Ok");
    assert_eq!(response.resp, "abc123:ping");
    assert_eq!(*worker.seen.borrow(), vec![("abc123".to_string(), "ping".to_string())]);
}

#[test]
fn execute_reports_a_failure_as_an_internal_error() {
    let worker =
        Arc::new(Echo { fails_with: Some(WorkerError::NotFound), seen: RefCell::new(Vec::new()) });
    let server = WorkerServer::new(worker);
    let error = server.execute(request("abc123", "ping")).err().unwrap();
    assert_eq!(error.message, "Execution failed: sandbox not found");
}

#[test]
fn respond_names_each_failure() {
    let cases = [
        (WorkerError::AlreadyExists, "Execution failed: root filesystem path already exists"),
        (WorkerError::NotFound, "Execution failed: sandbox not found"),
        (WorkerError::IoFailure, "Execution failed: filesystem operation failed"),
        (
            WorkerError::SpecConstruction,
            "Execution failed: runtime specification could not be built",
        ),
        (WorkerError::SandboxBuildFailure, "Execution failed: sandbox could not be built"),
        (WorkerError::SandboxStartFailure, "Execution failed: sandbox could not be started"),
        (WorkerError::InvalidAddress, "Execution failed: sandbox address is not a URL"),
        (WorkerError::ConfigurationError, "Execution failed: invalid configuration"),
    ];
    for (error, message) in cases {
        assert_eq!(respond(Err(error)).err().unwrap().message, message);
        assert_eq!(format!("Execution failed: {}", error.message()), message);
    }
    let answer = respond(Ok("done".to_string())).ok().unwrap();
    assert_eq!(answer.status, "Ok");
    assert_eq!(answer.resp, "done");
}

#[test]
fn the_server_address_defaults_to_the_loopback() {
    assert_eq!(ServerConfig::from_env(None).addr, "[::1]:50003");
    assert_eq!(ServerConfig::from_env(Some("0.0.0.0:9000".to_string())).addr, "0.0.0.0:9000");
    assert_eq!(ServerConfig::from_env(Some(String::new())).addr, "");
}
