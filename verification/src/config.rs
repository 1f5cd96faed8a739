//! Node configuration: the listen address and, for miners, the
//! address mining rewards go to. The surrounding program reads the
//! environment and hands the listen address in.

use vstd::prelude::*;

verus! {

/// Process-wide settings.
pub struct Config {
    node_addr: String,
    mining_addr: Option<String>,
}

impl Config {
    /// The configured listen address.
    pub closed spec fn spec_node_addr(&self) -> Seq<char> {
        self.node_addr@
    }

    /// The configured mining address, if mining is on.
    pub closed spec fn spec_mining_addr(&self) -> Option<Seq<char>> {
        match self.mining_addr {
            Some(ref a) => Some(a@),
            None => None,
        }
    }

    /// A configuration listening on `node_addr`, not mining.
    pub fn new(node_addr: String) -> (r: Config)
        ensures
            r.spec_node_addr() == node_addr@,
            r.spec_mining_addr() is None,
    {
        Config { node_addr, mining_addr: None }
    }

    /// The listen address.
    pub fn get_node_addr(&self) -> (r: String)
        ensures
            r@ == self.spec_node_addr(),
    {
        self.node_addr.clone()
    }

    /// Turns mining on, rewarding `addr`.
    pub fn set_mining_addr(&mut self, addr: String)
        ensures
            final(self).spec_node_addr() == old(self).spec_node_addr(),
            final(self).spec_mining_addr() == Some(addr@),
    {
        self.mining_addr = Some(addr);
    }

    /// The mining address, if mining is on.
    pub fn get_mining_addr(&self) -> (r: Option<String>)
        ensures
            match r {
                Some(a) => self.spec_mining_addr() == Some(a@),
                None => self.spec_mining_addr() is None,
            },
    {
        match self.mining_addr {
            Some(ref a) => Some(a.clone()),
            None => None,
        }
    }

    /// Whether this node mines.
    pub fn is_miner(&self) -> (r: bool)
        ensures
            r == (self.spec_mining_addr() is Some),
    {
        match self.mining_addr {
            Some(_) => true,
            None => false,
        }
    }
}

} // verus!
