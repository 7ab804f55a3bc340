use vstd::prelude::*;
use crate::error::WorkerError;
use crate::function_invocations::Invocation;
use std::sync::Arc;
use vstd::string::*;

verus! {

/// What runs a function: it resolves or provisions the sandbox of an
/// instance, hands it the payload and brings back its reply.
pub trait FunctionWorker {
    fn execute(&self, instance_id: String, payload: String) -> Result<String, WorkerError>;
}

/// A request to run the function instance `instance_id` on `payload`.
pub struct ExecuteRequest {
    pub instance_id: String,
    pub payload: String,
}

/// The reply to an [`ExecuteRequest`] that was served.
pub struct ExecuteResponse {
    pub status: String,
    pub resp: String,
}

/// The reply to an [`ExecuteRequest`] that could not be served: an internal
/// error with its message.
pub struct RpcError {
    pub message: String,
}

/// What is answered to a request whose execution ended as `outcome` says:
/// the reply under the status `Ok`, or an internal error that names the
/// failure. The two texts are the status and the reply, or the message.
pub open spec fn response_of(outcome: Result<Seq<char>, WorkerError>) -> Result<
    (Seq<char>, Seq<char>),
    Seq<char>,
> {
    match outcome {
        Ok(reply) => Ok(("Ok"@, reply)),
        Err(e) => Err("Execution failed: "@ + e.text()),
    }
}

/// The texts of an answer.
pub open spec fn answer_view(answer: Result<ExecuteResponse, RpcError>) -> Result<
    (Seq<char>, Seq<char>),
    Seq<char>,
> {
    match answer {
        Ok(response) => Ok((response.status@, response.resp@)),
        Err(error) => Err(error.message@),
    }
}

/// The texts of an outcome.
pub open spec fn outcome_view(outcome: Result<String, WorkerError>) -> Result<
    Seq<char>,
    WorkerError,
> {
    match outcome {
        Ok(reply) => Ok(reply@),
        Err(e) => Err(e),
    }
}

/// Turns the outcome of an execution into the answer to its request.
pub fn respond(outcome: Result<String, WorkerError>) -> (answer: Result<ExecuteResponse, RpcError>)
    ensures
        answer_view(answer) == response_of(outcome_view(outcome)),
{
    match outcome {
        Ok(reply) => Ok(ExecuteResponse { status: String::from_str("Ok"), resp: reply }),
        Err(e) => Err(
            RpcError { message: String::from_str("Execution failed: ").concat(e.message()) },
        ),
    }
}

/// What serving a request for an instance takes next.
pub enum Dispatch {
    /// The instance has a sandbox on record: forward to its endpoint.
    Forward(Arc<Invocation>),
    /// Nothing is on record: provision the sandbox, record its endpoint,
    /// then forward to it.
    Provision,
}

/// Decides what serving a request takes, from what the registry holds for
/// the instance.
pub fn dispatch(found: Option<Arc<Invocation>>) -> (next: Dispatch)
    ensures
        next == match found {
            Some(invocation) => Dispatch::Forward(invocation),
            None => Dispatch::Provision,
        },
{
    match found {
        Some(invocation) => Dispatch::Forward(invocation),
        None => Dispatch::Provision,
    }
}

/// The inbound boundary of the worker.
pub struct WorkerServer<W: FunctionWorker> {
    pub function_worker: Arc<W>,
}

impl<W: FunctionWorker> WorkerServer<W> {
    pub fn new(function_worker: Arc<W>) -> (server: Self)
        ensures
            server.function_worker == function_worker,
    {
        Self { function_worker }
    }

    /// Serves one request: the worker runs the instance that the request
    /// names on the payload that it carries, and what comes back is
    /// answered as `response_of` says.
    pub fn execute(&self, request: ExecuteRequest) -> (answer: Result<ExecuteResponse, RpcError>)
        ensures
            exists|outcome: Result<String, WorkerError>| #[trigger]
                call_ensures(
                    W::execute,
                    (&*self.function_worker, request.instance_id, request.payload),
                    outcome,
                ) && answer_view(answer) == response_of(outcome_view(outcome)),
    {
        respond(self.function_worker.execute(request.instance_id, request.payload))
    }
}

} // verus!
