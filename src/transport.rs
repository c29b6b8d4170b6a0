//! Decisions of the loop that accepts connections; the loop itself, with
//! its sockets, belongs to the caller.
use vstd::prelude::*;
use crate::peer::Addr;

verus! {

/// Control messages of the accept loop.
#[derive(Clone, Copy, Debug, PartialEq, Eq, Structural)]
pub enum AcceptingMsg {
    /// Stop accepting.
    Exit,
    /// Nothing to do.
    Noop,
}

/// The state of an accept loop: where it listens and whether it goes on.
pub struct AcceptingManager {
    addr: Addr,
    accepting: bool,
}

impl AcceptingManager {
    pub closed spec fn spec_addr(&self) -> Addr {
        self.addr
    }

    pub closed spec fn spec_accepting(&self) -> bool {
        self.accepting
    }

    /// An accept loop for `addr`, accepting until told to exit.
    pub fn new(addr: Addr) -> (r: AcceptingManager)
        ensures
            r.spec_addr() == addr,
            r.spec_accepting(),
    {
        AcceptingManager { addr, accepting: true }
    }

    /// Where the loop listens.
    pub fn addr(&self) -> (r: &Addr)
        ensures
            *r == self.spec_addr(),
    {
        &self.addr
    }

    /// Whether the loop goes on.
    pub fn is_accepting(&self) -> (r: bool)
        ensures
            r == self.spec_accepting(),
    {
        self.accepting
    }

    /// Handles a control message and says whether the loop goes on: `Exit`
    /// stops it for good, `Noop` changes nothing.
    pub fn on_message(&mut self, msg: AcceptingMsg) -> (r: bool)
        ensures
            r == final(self).spec_accepting(),
            final(self).spec_accepting() == (old(self).spec_accepting() && msg
                == AcceptingMsg::Noop),
            final(self).spec_addr() == old(self).spec_addr(),
    {
        match msg {
            AcceptingMsg::Exit => {
                self.accepting = false;
            },
            AcceptingMsg::Noop => {},
        }
        self.accepting
    }
}

} // verus!
