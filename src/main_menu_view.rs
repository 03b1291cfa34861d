//! The state behind the connection menu: the address the player types in.
use vstd::prelude::*;
use vstd::string::StringExecFns;

verus! {

/// The address a menu offers before the player edits it.
pub open spec fn default_socket_addr() -> Seq<char> {
    "192.168.56.101:8069"@
}

/// What the connection menu holds between frames.
pub struct MainMenuView {
    /// The peer's address as `host:port`, as edited so far.
    pub socket_addr: String,
}

impl MainMenuView {
    pub fn new() -> (m: Self)
        ensures
            m.socket_addr@ == default_socket_addr(),
    {
        MainMenuView { socket_addr: String::from_str("192.168.56.101:8069") }
    }
}

} // verus!
