//! Plain data types shared with the host-side bridge that the engine is
//! deployed behind: an address placeholder and the error for a 256-bit
//! decimal parse. They carry no game logic of their own.

use vstd::prelude::*;
use vstd::string::StringExecFns;

verus! {

/// A placeholder for an EVM address as the host side passes it around.
#[derive(Clone, Copy, Debug, PartialEq, Eq, Structural)]
pub struct Address {}

impl Address {
    /// The fixed textual form of the placeholder.
    pub fn text(&self) -> (t: String)
        ensures
            t@ == "Address"@,
    {
        String::from_str("Address")
    }
}

/// The error reported when a 256-bit unsigned integer cannot be read
/// from decimal text; `msg` carries the reason.
#[derive(Debug, PartialEq, Eq)]
pub struct ParseU256Error {
    pub msg: String,
}

impl ParseU256Error {
    /// The readable message of the error.
    pub fn message(&self) -> (t: String)
        ensures
            t@ == "Parse U256 Error: "@ + self.msg@,
    {
        let mut t = String::from_str("Parse U256 Error: ");
        t.append(self.msg.as_str());
        t
    }
}

} // verus!
