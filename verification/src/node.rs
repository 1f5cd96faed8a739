//! The in-memory table of known peers.

use vstd::prelude::*;

verus! {

/// One known peer, named by its listen address.
pub struct Node {
    addr: String,
}

impl Clone for Node {
    fn clone(&self) -> (res: Self)
        ensures
            res.spec_addr() == self.spec_addr(),
    {
        Node { addr: self.addr.clone() }
    }
}

impl Node {
    /// A peer with the given address.
    pub fn new(addr: String) -> (r: Node)
        ensures
            r.spec_addr() == addr@,
    {
        Node { addr }
    }

    /// The peer's address.
    pub closed spec fn spec_addr(&self) -> Seq<char> {
        self.addr@
    }

    /// The peer's address.
    pub fn get_addr(&self) -> (r: String)
        ensures
            r@ == self.spec_addr(),
    {
        self.addr.clone()
    }
}

/// The known peers, in the order they were learned.
pub struct Nodes {
    inner: Vec<Node>,
}

impl Nodes {
    /// The peers' addresses, in order.
    pub closed spec fn view_addrs(&self) -> Seq<Seq<char>> {
        Seq::new(self.inner@.len(), |i: int| self.inner@[i].spec_addr())
    }

    /// An empty table.
    pub fn new() -> (r: Nodes)
        ensures
            r.view_addrs().len() == 0,
    {
        Nodes { inner: Vec::new() }
    }

    fn position(&self, addr: &str) -> (r: Option<usize>)
        ensures
            match r {
                Some(i) => i < self.view_addrs().len() && self.view_addrs()[i as int] == addr@
                    && (forall|q: int|
                    0 <= q < i ==> #[trigger] self.view_addrs()[q] != addr@),
                None => forall|i: int|
                    0 <= i < self.view_addrs().len() ==> #[trigger] self.view_addrs()[i] != addr@,
            },
    {
        let key = addr.to_owned();
        let n = self.inner.len();
        let mut i: usize = 0;
        while i < n
            invariant
                n == self.inner@.len(),
                key@ == addr@,
                i <= n,
                forall|k: int|
                    0 <= k < i ==> #[trigger] self.view_addrs()[k] != addr@,
            decreases n - i,
        {
            let a = self.inner[i].get_addr();
            proof {
                assert(self.view_addrs()[i as int] == self.inner@[i as int].spec_addr());
            }
            if a == key {
                return Some(i);
            }
            i = i + 1;
        }
        None
    }

    /// Whether a peer with the given address is known.
    pub fn node_is_known(&self, addr: &str) -> (r: bool)
        ensures
            r == exists|i: int|
                0 <= i < self.view_addrs().len() && #[trigger] self.view_addrs()[i] == addr@,
    {
        match self.position(addr) {
            Some(_) => true,
            None => false,
        }
    }

    /// Records a peer unless its address is already known.
    pub fn add_node(&mut self, addr: String)
        ensures
            exists|i: int|
                0 <= i < final(self).view_addrs().len() && #[trigger] final(self).view_addrs()[i]
                    == addr@,
            (exists|i: int|
                0 <= i < old(self).view_addrs().len() && #[trigger] old(self).view_addrs()[i]
                    == addr@) ==> final(self).view_addrs() == old(self).view_addrs(),
            (forall|i: int|
                0 <= i < old(self).view_addrs().len() ==> #[trigger] old(self).view_addrs()[i]
                    != addr@) ==> final(self).view_addrs() == old(self).view_addrs().push(addr@),
    {
        match self.position(addr.as_str()) {
            Some(i) => {
                proof {
                    assert(self.view_addrs()[i as int] == addr@);
                }
            },
            None => {
                let ghost pre = self.view_addrs();
                self.inner.push(Node::new(addr));
                proof {
                    let n = self.view_addrs().len() - 1;
                    assert(self.view_addrs()[n] == self.inner@[n].spec_addr());
                    assert forall|k: int| 0 <= k < self.view_addrs().len() implies self.view_addrs()[
                    k] == pre.push(addr@)[k] by {
                        assert(self.view_addrs()[k] == self.inner@[k].spec_addr());
                        if k < pre.len() {
                            assert(self.inner@[k] == old(self).inner@[k]);
                            assert(pre[k] == old(self).inner@[k].spec_addr());
                        }
                    }
                    assert(self.view_addrs() =~= pre.push(addr@));
                }
            },
        }
    }

    /// Forgets the first-recorded peer with the given address, if any.
    pub fn evict_node(&mut self, addr: &str)
        ensures
            (forall|j: int|
                0 <= j < old(self).view_addrs().len() ==> #[trigger] old(self).view_addrs()[j]
                    != addr@) ==> final(self).view_addrs() == old(self).view_addrs(),
            (exists|j: int|
                0 <= j < old(self).view_addrs().len() && #[trigger] old(self).view_addrs()[j]
                    == addr@) ==> exists|j: int|
                {
                    &&& 0 <= j < old(self).view_addrs().len()
                    &&& old(self).view_addrs()[j] == addr@
                    &&& (forall|q: int|
                        0 <= q < j ==> #[trigger] old(self).view_addrs()[q] != addr@)
                    &&& final(self).view_addrs() == old(self).view_addrs().remove(j)
                },
    {
        match self.position(addr) {
            Some(i) => {
                let ghost pre = self.view_addrs();
                proof {
                    assert(forall|q: int|
                        0 <= q < i ==> #[trigger] old(self).view_addrs()[q] != addr@);
                }
                self.inner.remove(i);
                proof {
                    assert forall|k: int| 0 <= k < self.view_addrs().len() implies self.view_addrs()[
                    k] == pre.remove(i as int)[k] by {
                        assert(self.view_addrs()[k] == self.inner@[k].spec_addr());
                        if k < i {
                            assert(self.inner@[k] == old(self).inner@[k]);
                        } else {
                            assert(self.inner@[k] == old(self).inner@[k + 1]);
                        }
                    }
                    assert(self.view_addrs() =~= pre.remove(i as int));
                }
            },
            None => (),
        }
    }

    /// The first known peer, if any.
    pub fn first(&self) -> (r: Option<Node>)
        ensures
            match r {
                Some(nd) => self.view_addrs().len() > 0 && nd.spec_addr() == self.view_addrs()[0],
                None => self.view_addrs().len() == 0,
            },
    {
        if self.inner.len() == 0 {
            return None;
        }
        let nd = self.inner[0].clone();
        proof {
            assert(self.view_addrs()[0] == self.inner@[0].spec_addr());
        }
        Some(nd)
    }

    /// Every known peer, in order.
    pub fn get_nodes(&self) -> (r: Vec<Node>)
        ensures
            r@.len() == self.view_addrs().len(),
            forall|i: int|
                0 <= i < r@.len() ==> (#[trigger] r@[i]).spec_addr() == self.view_addrs()[i],
    {
        let mut out: Vec<Node> = Vec::new();
        let mut i: usize = 0;
        while i < self.inner.len()
            invariant
                i <= self.inner@.len(),
                out@.len() == i,
                forall|k: int|
                    0 <= k < i ==> (#[trigger] out@[k]).spec_addr() == self.view_addrs()[k],
            decreases self.inner@.len() - i,
        {
            let nd = self.inner[i].clone();
            proof {
                assert(self.view_addrs()[i as int] == self.inner@[i as int].spec_addr());
            }
            out.push(nd);
            i = i + 1;
        }
        out
    }

    /// How many peers are known.
    pub fn len(&self) -> (r: usize)
        ensures
            r == self.view_addrs().len(),
    {
        self.inner.len()
    }
}

} // verus!
