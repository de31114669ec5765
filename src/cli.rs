//! The command-line client's options, and the addresses it talks to.

use vstd::prelude::*;
use vstd::string::StringExecFns;

verus! {

/// The form in which `get` prints the records.
#[derive(Debug, Clone, Copy, PartialEq, Eq, Structural)]
pub enum LogFormat {
    Csv,
    Json,
}

/// What the client is asked to do.
#[derive(Debug, Clone, Copy, PartialEq, Eq, Structural)]
pub enum Command {
    /// Prints every record in the given form.
    Get { format: LogFormat },
    /// Sends each well-formed CSV row of standard input as one record.
    Post,
}

/// The client's options: the service's base address and the command.
#[derive(Debug)]
pub struct Opt {
    pub server: String,
    pub command: Command,
}

impl Clone for Opt {
    fn clone(&self) -> (r: Self)
        ensures
            r == *self,
    {
        Opt { server: self.server.clone(), command: self.command }
    }
}

/// The route that serves records in a form.
pub open spec fn route_of(format: LogFormat) -> Seq<char> {
    match format {
        LogFormat::Json => "/logs"@,
        LogFormat::Csv => "/csv"@,
    }
}

/// The address from which `get` fetches records in `format`.
pub fn get_url(server: &str, format: LogFormat) -> (r: String)
    ensures
        r@ == server@ + route_of(format),
{
    let mut url = String::from_str(server);
    match format {
        LogFormat::Json => url.append("/logs"),
        LogFormat::Csv => url.append("/csv"),
    }
    url
}

/// The address to which `post` sends each record.
pub fn post_url(server: &str) -> (r: String)
    ensures
        r@ == server@ + "/logs"@,
{
    let mut url = String::from_str(server);
    url.append("/logs");
    url
}

} // verus!
