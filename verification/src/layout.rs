use vstd::prelude::*;
use vstd::string::*;

verus! {

/// The directory under which every instance bundle lives.
pub open spec fn instance_root() -> Seq<char> {
    "/var/lib/noctiforge/native_worker/run"@
}

/// Hands out the directory under which every instance bundle lives.
pub fn instance_root_path() -> (root: String)
    ensures
        root@ == instance_root(),
{
    String::from_str("/var/lib/noctiforge/native_worker/run")
}

/// `name` as an entry of the directory `dir`.
pub open spec fn child_of(dir: Seq<char>, name: Seq<char>) -> Seq<char> {
    dir + seq!['/'] + name
}

/// The bundle directory of the instance `instance_id` under the instance
/// root.
pub open spec fn instance_path(instance_id: Seq<char>) -> Seq<char> {
    child_of(instance_root(), instance_id)
}

/// Maps an instance identifier to the directory of its bundle.
pub trait PathResolver {
    fn get_instance_path(&self, instance_id: &str) -> String;
}

/// Resolves every identifier below the fixed instance root.
pub struct DefaultPathResolver;

impl PathResolver for DefaultPathResolver {
    fn get_instance_path(&self, instance_id: &str) -> (path: String)
        ensures
            path@ == instance_path(instance_id@),
    {
        join("/var/lib/noctiforge/native_worker/run", instance_id)
    }
}

/// Builds the path of the entry `name` of the directory `dir`.
pub fn join(dir: &str, name: &str) -> (path: String)
    ensures
        path@ == child_of(dir@, name@),
{
    proof {
        reveal_strlit("/");
        assert("/"@ =~= seq!['/']);
    }
    String::from_str(dir).concat("/").concat(name)
}


/// Where the runtime specification of the bundle `bundle` is written.
pub open spec fn config_path(bundle: Seq<char>) -> Seq<char> {
    child_of(bundle, "config.json"@)
}

/// The root filesystem of the bundle `bundle`.
pub open spec fn rootfs_path(bundle: Seq<char>) -> Seq<char> {
    child_of(bundle, "rootfs"@)
}

/// Where the handler tree is copied to inside the bundle `bundle`.
pub open spec fn app_path(bundle: Seq<char>) -> Seq<char> {
    child_of(rootfs_path(bundle), "app"@)
}

/// The directory kept for the sandbox's socket inside the bundle `bundle`.
pub open spec fn run_path(bundle: Seq<char>) -> Seq<char> {
    child_of(rootfs_path(bundle), "run"@)
}

/// The address at which the sandbox made from `bundle` listens.
pub open spec fn socket_address(bundle: Seq<char>) -> Seq<char> {
    "unix://"@ + bundle + "/rootfs/run/app.sock"@
}

/// Builds the address at which the sandbox made from `bundle` listens.
pub fn socket_address_of(bundle: &str) -> (address: String)
    ensures
        address@ == socket_address(bundle@),
{
    String::from_str("unix://").concat(bundle).concat("/rootfs/run/app.sock")
}

/// Different names are different entries of one directory.
pub proof fn lemma_child_of_is_injective(dir: Seq<char>, a: Seq<char>, b: Seq<char>)
    ensures
        child_of(dir, a) == child_of(dir, b) ==> a == b,
{
    let prefix = dir + seq!['/'];
    assert(child_of(dir, a).skip(prefix.len() as int) =~= a);
    assert(child_of(dir, b).skip(prefix.len() as int) =~= b);
}

} // verus!
