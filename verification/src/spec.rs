use vstd::prelude::*;
use crate::error::WorkerError;
use libcontainer::oci_spec::runtime::{ProcessBuilder, Spec, SpecBuilder, UserBuilder};
use libcontainer::oci_spec::OciSpecError;

verus! {

#[verifier::external_type_specification]
#[verifier::external_body]
pub struct ExSpec(libcontainer::oci_spec::runtime::Spec);

#[verifier::external_type_specification]
#[verifier::external_body]
pub struct ExOciSpecError(libcontainer::oci_spec::OciSpecError);

#[verifier::external_type_specification]
#[verifier::external_body]
pub struct ExJsonError(serde_json::Error);

/// The user and group a sandbox's process runs as.
#[derive(Clone, Copy, Debug, PartialEq, Eq, Structural)]
pub struct SysUserParms {
    pub uid: u32,
    pub gid: u32,
}

/// Calls the builders of `oci_spec::runtime`. They read nothing but the
/// two numbers, so what they give is what `built_spec` names for them. All
/// three structs take their defaults from the struct and have no check of
/// their own, so the `build` that is derived for them has no failing path.
#[verifier::external_body]
fn build_spec(uid: u32, gid: u32) -> (built: Result<Spec, OciSpecError>)
    ensures
        built == built_spec(uid, gid),
        built is Ok,
{
    let user = UserBuilder::default().uid(uid).gid(gid).build()?;
    let process = ProcessBuilder::default().user(user).build()?;
    SpecBuilder::default().process(process).build()
}

/// Whether `bytes` have the frame of a JSON object: they open with `{` and
/// close with `}`.
pub open spec fn is_object(bytes: Seq<u8>) -> bool {
    bytes.len() >= 2 && bytes[0] == 0x7b && bytes.last() == 0x7d
}

/// Whether `spec` is a specification that the builders make for some user
/// and group.
pub open spec fn is_built(spec: Spec) -> bool {
    exists|uid: u32, gid: u32| #[trigger] built_spec(uid, gid) == Ok::<Spec, OciSpecError>(spec)
}

/// Calls `serde_json::to_vec_pretty` on a runtime specification.
///
/// A struct is rendered as an object: the first byte written is `{` and
/// the last is `}`. The sets of the specification are walked in hash order,
/// so the bytes between them have no name.
///
/// A specification that the builders made is always rendered. The
/// renderer fails only where a serializer fails or a map has a key that is
/// no string; the specification has no serializer written by hand, its maps
/// are keyed by strings, and the one serializer in reach that can fail is
/// that of a path that is no UTF-8, while every path the builders set is a
/// literal.
#[verifier::external_body]
fn spec_json(spec: &Spec) -> (rendered: Result<Vec<u8>, serde_json::Error>)
    ensures
        rendered matches Ok(bytes) ==> is_object(bytes@),
        is_built(*spec) ==> rendered is Ok,
{
    serde_json::to_vec_pretty(spec)
}

/// The specification that is used where building it went as `built` says.
pub open spec fn spec_of(built: Result<Spec, OciSpecError>) -> Result<Spec, WorkerError> {
    match built {
        Ok(spec) => Ok(spec),
        Err(_) => Err(WorkerError::SpecConstruction),
    }
}

/// The document that is written where rendering a specification went as
/// `rendered` says.
pub open spec fn document_of(rendered: Result<Vec<u8>, serde_json::Error>) -> Result<
    Seq<u8>,
    WorkerError,
> {
    match rendered {
        Ok(bytes) => Ok(bytes@),
        Err(_) => Err(WorkerError::SpecConstruction),
    }
}

/// Turns what the builders gave into the specification or the error.
pub fn spec_from(built: Result<Spec, OciSpecError>) -> (spec: Result<Spec, WorkerError>)
    ensures
        spec == spec_of(built),
{
    match built {
        Ok(spec) => Ok(spec),
        Err(_) => Err(WorkerError::SpecConstruction),
    }
}

/// Turns what the renderer gave into the document or the library's error.
pub fn document_from(rendered: Result<Vec<u8>, serde_json::Error>) -> (document: Result<
    Vec<u8>,
    WorkerError,
>)
    ensures
        match document {
            Ok(bytes) => document_of(rendered) == Ok::<Seq<u8>, WorkerError>(bytes@),
            Err(e) => document_of(rendered) == Err::<Seq<u8>, WorkerError>(e),
        },
{
    match rendered {
        Ok(bytes) => Ok(bytes),
        Err(_) => Err(WorkerError::SpecConstruction),
    }
}

/// The static runtime specification of a sandbox whose process runs as
/// `sys_user`: what the builders make for that user and group, and
/// nothing else decides it. There is one for every identity.
pub fn get_spec(sys_user: &SysUserParms) -> (spec: Result<Spec, WorkerError>)
    ensures
        spec == spec_of(built_spec(sys_user.uid, sys_user.gid)),
        spec is Ok,
{
    spec_from(build_spec(sys_user.uid, sys_user.gid))
}

/// Renders a specification as the document that is written to
/// `config.json`: pretty-printed JSON, which is one object. There is a
/// document for every specification that the builders made; for any other
/// the renderer decides, and where it fails the error is `SpecConstruction`.
pub fn render_spec(spec: &Spec) -> (document: Result<Vec<u8>, WorkerError>)
    ensures
        is_built(*spec) ==> document is Ok,
        document matches Ok(bytes) ==> is_object(bytes@),
        document matches Err(e) ==> e == WorkerError::SpecConstruction,
{
    document_from(spec_json(spec))
}

/// The `config.json` of a sandbox whose process runs as `sys_user`: its
/// specification, rendered as `render_spec` does. There is one for every
/// identity, and it is one JSON object.
pub fn spec_document(sys_user: &SysUserParms) -> (document: Result<Vec<u8>, WorkerError>)
    ensures
        document matches Ok(bytes) && is_object(bytes@),
{
    let spec = get_spec(sys_user).unwrap();
    assert(built_spec(sys_user.uid, sys_user.gid) == Ok::<Spec, OciSpecError>(spec));
    render_spec(&spec)
}

/// What the builders of `oci_spec::runtime` make of a user `uid` and a
/// group `gid`: the runtime's default specification, with its namespaces
/// and mounts, whose process runs as that user and group; or the builders'
/// error. The builders take nothing from the machine or the environment,
/// so two specifications built from the same numbers are equal as `Spec`
/// compares them. The name says nothing of the order in which the sets
/// inside a specification are walked, and no contract may state the bytes
/// or the order of a specification on its account.
pub uninterp spec fn built_spec(uid: u32, gid: u32) -> Result<Spec, OciSpecError>;

} // verus!
