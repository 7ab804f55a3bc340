use noctiforge_worker::container::ProccesContainer;
use noctiforge_worker::endpoint::{endpoint_for, endpoint_from};
use noctiforge_worker::error::WorkerError;
use noctiforge_worker::function_invocations::FunctionInvocations;
use noctiforge_worker::layout::{instance_root_path, join, socket_address_of};
use noctiforge_worker::sandbox::{ContainerStatus, ContainerWrapper};
use noctiforge_worker::server::{dispatch, Dispatch};
use std::sync::Arc;
use url::Url;

struct Bundle(String);

impl ContainerWrapper for Bundle {
    fn bundle(&self) -> String {
        self.0.clone()
    }

    fn status(&self) -> ContainerStatus {
        ContainerStatus::Running
    }

    fn start(&mut self) -> Result<(), WorkerError> {
        Ok(())
    }
}

#[test]
fn endpoint_of_a_bundle_is_its_socket_url() {
    let container = ProccesContainer { container: Bundle("/var/lib/x/run/abc123".to_string()) };
    let url = container.get_url().unwrap();
    assert_eq!(url.as_str(), "unix:///var/lib/x/run/abc123/rootfs/run/app.sock");
    assert_eq!(url.scheme(), "unix");
    assert_eq!(url.path(), "/var/lib/x/run/abc123/rootfs/run/app.sock");
}

#[test]
fn socket_address_is_built_around_the_bundle() {
    assert_eq!(
        socket_address_of("/var/lib/x/run/abc123"),
        "unix:///var/lib/x/run/abc123/rootfs/run/app.sock"
    );
    assert_eq!(socket_address_of(""), "unix:///rootfs/run/app.sock");
}

#[test]
fn the_instance_root_is_fixed() {
    assert_eq!(instance_root_path(), "/var/lib/noctiforge/native_worker/run");
}

#[test]
fn join_puts_one_separator_between_directory_and_name() {
    assert_eq!(join("/var/lib", "abc"), "/var/lib/abc");
    assert_eq!(join("", "abc"), "/abc");
    assert_eq!(join("/var/lib", ""), "/var/lib/");
}

#[test]
fn the_endpoint_is_what_the_parser_makes_of_the_address() {
    let url = endpoint_for("/tmp/with space").unwrap();
    assert_eq!(url.as_str(), "unix:///tmp/with%20space/rootfs/run/app.sock");
    assert_eq!(url, Url::parse("unix:///tmp/with space/rootfs/run/app.sock").unwrap());
}

#[test]
fn an_address_that_is_no_url_is_invalid() {
    assert_eq!(endpoint_for(":x").err(), Some(WorkerError::InvalidAddress));
    let container = ProccesContainer { container: Bundle("[".to_string()) };
    assert_eq!(container.get_url().err(), Some(WorkerError::InvalidAddress));
}

#[test]
fn a_parse_result_becomes_an_endpoint() {
    let parsed = Url::parse("unix:///a/rootfs/run/app.sock");
    let expected = parsed.clone().unwrap();
    assert_eq!(endpoint_from(parsed), Ok(expected));
    assert_eq!(endpoint_from(Url::parse("not a url")), Err(WorkerError::InvalidAddress));
}

#[test]
fn a_sandbox_is_registered_under_its_endpoint() {
    let mut registry = FunctionInvocations::new("/var/lib/x/run".to_string());
    let handle = ProccesContainer { container: Bundle("/var/lib/x/run/abc123".to_string()) };
    let recorded = registry.register("abc123".to_string(), &handle).unwrap();
    assert_eq!(recorded.url.as_str(), "unix:///var/lib/x/run/abc123/rootfs/run/app.sock");
    let found = registry.get("abc123").unwrap();
    assert!(Arc::ptr_eq(&found, &recorded));
}

#[test]
fn a_sandbox_without_an_endpoint_is_not_registered() {
    let mut registry = FunctionInvocations::new("/var/lib/x/run".to_string());
    let handle = ProccesContainer { container: Bundle(":x".to_string()) };
    assert_eq!(
        registry.register("abc123".to_string(), &handle).err(),
        Some(WorkerError::InvalidAddress)
    );
    assert!(registry.get("abc123").is_none());
    assert!(registry.keys().is_empty());
}

#[test]
fn a_request_is_forwarded_to_what_is_on_record_or_provisioned() {
    let mut registry = FunctionInvocations::new("/var/lib/x/run".to_string());
    assert!(matches!(dispatch(registry.get("abc123")), Dispatch::Provision));
    let url = Url::parse("unix:///var/lib/x/run/abc123/rootfs/run/app.sock").unwrap();
    let recorded = registry.insert("abc123".to_string(), url);
    match dispatch(registry.get("abc123")) {
        Dispatch::Forward(invocation) => assert!(Arc::ptr_eq(&invocation, &recorded)),
        Dispatch::Provision => panic!("a recorded sandbox is not provisioned again"),
    }
}
