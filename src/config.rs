use vstd::prelude::*;

verus! {

/// The SSH client binary used when the preferences file names none.
pub fn default_ssh_binary() -> (r: String)
    ensures
        r@ == "ssh"@,
{
    String::from_str("ssh")
}

/// The connection timeout, in seconds, used when the preferences file names none.
pub fn default_timeout() -> (r: u64)
    ensures
        r == 30,
{
    30
}

/// The tool's own preferences: which SSH binary to run and the connection timeout.
#[derive(Debug, Clone)]
pub struct Config {
    pub ssh_binary: String,
    pub timeout: u64,
}

impl Default for Config {
    fn default() -> (r: Config)
        ensures
            r.ssh_binary@ == "ssh"@,
            r.timeout == 30,
    {
        Config { ssh_binary: default_ssh_binary(), timeout: default_timeout() }
    }
}

} // verus!
