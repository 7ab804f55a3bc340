use vstd::prelude::*;
use vstd::string::*;

verus! {

/// The settings of the RPC server.
pub struct ServerConfig {
    /// The socket address to listen on, as text.
    pub addr: String,
}

/// The address that is listened on where the environment names none.
pub open spec fn default_addr() -> Seq<char> {
    "[::1]:50003"@
}

impl ServerConfig {
    /// The settings for `server_addr`, the value of the variable
    /// `SERVER_ADDR`, or `None` where the variable is not set.
    pub fn from_env(server_addr: Option<String>) -> (config: Self)
        ensures
            config.addr@ == match server_addr {
                Some(addr) => addr@,
                None => default_addr(),
            },
    {
        match server_addr {
            Some(addr) => Self { addr },
            None => Self { addr: String::from_str("[::1]:50003") },
        }
    }
}

} // verus!
