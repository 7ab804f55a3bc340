//! The core of a function-as-a-service worker: where the bundle of a
//! function instance lives and what provisioning it takes, the handle of its
//! sandbox, the registry of what runs, and the reconciler that looks over
//! the registry.
//!
//! Nothing here touches the disk, the clock or the network. What has to be
//! done there is handed out as steps that the caller performs and reports
//! on; the sandbox runtime is reached through the traits of [`sandbox`].

pub mod background;
pub mod config;
pub mod container;
pub mod endpoint;
pub mod error;
pub mod function_invocations;
pub mod layout;
pub mod provision;
pub mod sandbox;
pub mod server;
pub mod spec;
