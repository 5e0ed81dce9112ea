use vstd::prelude::*;

verus! {

/// A transport endpoint: an IP address (IPv4 held in the low 32 bits) and a
/// port.
#[derive(Clone, Copy, Debug, PartialEq, Eq, Hash, Structural)]
pub struct NetAddress {
    pub ip: u128,
    pub port: u16,
    pub v6: bool,
}

pub open spec fn has_addr<C>(s: Seq<(NetAddress, C)>, a: NetAddress) -> bool {
    exists|i: int| 0 <= i < s.len() && s[i].0 == a
}

/// Where `a` stands in `s`, when it does.
pub open spec fn slot_of<C>(s: Seq<(NetAddress, C)>, a: NetAddress) -> int {
    choose|i: int| 0 <= i < s.len() && s[i].0 == a
}

pub open spec fn unique_addrs<C>(s: Seq<(NetAddress, C)>) -> bool {
    forall|i: int, j: int| 0 <= i < j < s.len() ==> s[i].0 != s[j].0
}

/// The table after registering `c` under `a`: it takes the place of the
/// connection that held `a`, or comes last.
pub open spec fn after_register<C>(s: Seq<(NetAddress, C)>, a: NetAddress, c: C) -> Seq<
    (NetAddress, C),
> {
    if has_addr(s, a) {
        s.update(slot_of(s, a), (a, c))
    } else {
        s.push((a, c))
    }
}

/// The table after removing whatever was registered under `a`.
pub open spec fn after_unregister<C>(s: Seq<(NetAddress, C)>, a: NetAddress) -> Seq<
    (NetAddress, C),
> {
    if has_addr(s, a) {
        s.remove(slot_of(s, a))
    } else {
        s
    }
}

/// The connection registered under `a`, if any.
pub open spec fn occupant<C>(s: Seq<(NetAddress, C)>, a: NetAddress) -> Option<C> {
    if has_addr(s, a) {
        Some(s[slot_of(s, a)].1)
    } else {
        None
    }
}

pub open spec fn addresses<C>(s: Seq<(NetAddress, C)>) -> Seq<NetAddress> {
    s.map_values(|e: (NetAddress, C)| e.0)
}

pub open spec fn connections<C>(s: Seq<(NetAddress, C)>) -> Seq<C> {
    s.map_values(|e: (NetAddress, C)| e.1)
}

/// The registered connections, at most one per address, in order of
/// registration. A connection taken out of the table (displaced, removed or
/// drained) is handed back to the caller, who closes it.
pub struct Manager<C> {
    entries: Vec<(NetAddress, C)>,
    max_connections: usize,
}

impl<C> Manager<C> {
    pub closed spec fn table(&self) -> Seq<(NetAddress, C)> {
        self.entries@
    }

    pub closed spec fn capacity(&self) -> nat {
        self.max_connections as nat
    }

    pub open spec fn wf(&self) -> bool {
        unique_addrs(self.table())
    }

    pub fn new(max_connections: usize) -> (r: Manager<C>)
        ensures
            r.wf(),
            r.table() == Seq::<(NetAddress, C)>::empty(),
            r.capacity() == max_connections,
    {
        Manager { entries: Vec::new(), max_connections }
    }

    fn position(&self, a: NetAddress) -> (r: Option<usize>)
        requires
            self.wf(),
        ensures
            r.is_some() == has_addr(self.table(), a),
            r.is_some() ==> r->Some_0 == slot_of(self.table(), a) && r->Some_0 < self.table().len(),
    {
        let mut i: usize = 0;
        while i < self.entries.len()
            invariant
                0 <= i <= self.entries@.len(),
                self.wf(),
                forall|j: int| 0 <= j < i ==> self.entries@[j].0 != a,
            decreases self.entries@.len() - i,
        {
            if self.entries[i].0 == a {
                proof {
                    let k = slot_of(self.entries@, a);
                    assert(0 <= k < self.entries@.len() && self.entries@[k].0 == a);
                    if k < i {
                        assert(self.entries@[k].0 != self.entries@[i as int].0);
                    } else if k > i {
                        assert(self.entries@[i as int].0 != self.entries@[k].0);
                    }
                }
                return Some(i);
            }
            i = i + 1;
        }
        None
    }

    /// Registers `connection` under `address`. The connection it displaces,
    /// if any, is handed back to be closed.
    pub fn register(&mut self, address: NetAddress, connection: C) -> (r: Option<C>)
        requires
            old(self).wf(),
        ensures
            final(self).wf(),
            final(self).capacity() == old(self).capacity(),
            r == occupant(old(self).table(), address),
            final(self).table() == after_register(old(self).table(), address, connection),
    {
        match self.position(address) {
            Some(i) => {
                let ghost s0 = self.entries@;
                let (_, displaced) = self.entries.remove(i);
                self.entries.insert(i, (address, connection));
                proof {
                    assert(self.entries@ =~= s0.update(i as int, (address, connection)));
                }
                Some(displaced)
            },
            None => {
                self.entries.push((address, connection));
                None
            },
        }
    }

    /// Whether the table holds `max_connections` connections or more.
    pub fn is_full(&self) -> (r: bool)
        ensures
            r == (self.table().len() >= self.capacity()),
    {
        self.entries.len() >= self.max_connections
    }

    /// Removes the connection registered under `net_address`, handing it
    /// back.
    pub fn unregister(&mut self, net_address: NetAddress) -> (r: Option<C>)
        requires
            old(self).wf(),
        ensures
            final(self).wf(),
            final(self).capacity() == old(self).capacity(),
            r == occupant(old(self).table(), net_address),
            final(self).table() == after_unregister(old(self).table(), net_address),
    {
        match self.position(net_address) {
            Some(i) => {
                let ghost s0 = self.entries@;
                let (_, c) = self.entries.remove(i);
                proof {
                    assert forall|x: int, y: int| 0 <= x < y < self.entries@.len() implies
                        self.entries@[x].0 != self.entries@[y].0 by {
                        let xx = if x < i { x } else { x + 1 };
                        let yy = if y < i { y } else { y + 1 };
                        assert(self.entries@[x] == s0[xx]);
                        assert(self.entries@[y] == s0[yy]);
                    }
                }
                Some(c)
            },
            None => None,
        }
    }

    /// Empties the table, handing back every connection that was in it, in
    /// order of registration, to be closed.
    pub fn terminate_all_connections(&mut self) -> (r: Vec<C>)
        requires
            old(self).wf(),
        ensures
            final(self).wf(),
            final(self).capacity() == old(self).capacity(),
            final(self).table().len() == 0,
            r@ == connections(old(self).table()),
    {
        let ghost s0 = self.entries@;
        let mut drained: Vec<C> = Vec::new();
        while self.entries.len() > 0
            invariant
                self.max_connections == old(self).max_connections,
                drained@ + connections(self.entries@) == connections(s0),
            decreases self.entries@.len(),
        {
            let ghost s = self.entries@;
            let (_, c) = self.entries.remove(0);
            proof {
                assert(connections(s) =~= seq![c] + connections(self.entries@));
                assert(drained@.push(c) + connections(self.entries@) =~= drained@ + connections(s));
            }
            drained.push(c);
        }
        proof {
            assert(drained@ =~= drained@ + connections(self.entries@));
        }
        drained
    }

    /// The addresses of all registered connections.
    pub fn active_connections(&self) -> (r: Vec<NetAddress>)
        ensures
            r@ == addresses(self.table()),
    {
        let mut out: Vec<NetAddress> = Vec::new();
        let mut i: usize = 0;
        while i < self.entries.len()
            invariant
                0 <= i <= self.entries@.len(),
                out@ == addresses(self.entries@.take(i as int)),
            decreases self.entries@.len() - i,
        {
            out.push(self.entries[i].0);
            proof {
                assert(addresses(self.entries@.take(i + 1)) =~= addresses(self.entries@.take(i as int)).push(
                    self.entries@[i as int].0,
                ));
            }
            i = i + 1;
        }
        proof {
            assert(self.entries@.take(self.entries@.len() as int) =~= self.entries@);
        }
        out
    }

    /// Whether any connection is registered.
    pub fn has_connections(&self) -> (r: bool)
        ensures
            r == (self.table().len() > 0),
    {
        self.entries.len() > 0
    }

    /// Whether a connection is registered under `net_address`.
    pub fn has_connection(&self, net_address: NetAddress) -> (r: bool)
        requires
            self.wf(),
        ensures
            r == has_addr(self.table(), net_address),
    {
        self.position(net_address).is_some()
    }
}

/// The table after registering `conns[i]` under `addrs[i]`, in order.
pub open spec fn register_all<C>(s: Seq<(NetAddress, C)>, addrs: Seq<NetAddress>, conns: Seq<C>) -> Seq<
    (NetAddress, C),
>
    decreases addrs.len(),
{
    if addrs.len() == 0 {
        s
    } else {
        after_register(
            register_all(s, addrs.drop_last(), conns.drop_last()),
            addrs.last(),
            conns.last(),
        )
    }
}

/// Registering distinct addresses into an empty table keeps every one of
/// them, in order: the table then holds as many connections as addresses, so
/// `is_full` holds exactly when their number reaches the capacity.
pub proof fn lemma_register_distinct<C>(addrs: Seq<NetAddress>, conns: Seq<C>)
    requires
        addrs.no_duplicates(),
        conns.len() == addrs.len(),
    ensures
        addresses(register_all(Seq::<(NetAddress, C)>::empty(), addrs, conns)) == addrs,
        register_all(Seq::<(NetAddress, C)>::empty(), addrs, conns).len() == addrs.len(),
    decreases addrs.len(),
{
    let e = Seq::<(NetAddress, C)>::empty();
    if addrs.len() == 0 {
        assert(addresses(e) =~= addrs);
    } else {
        let pre = addrs.drop_last();
        assert(pre.no_duplicates()) by {
            assert forall|i: int, j: int| 0 <= i < pre.len() && 0 <= j < pre.len() && i != j implies pre[i]
                != pre[j] by {
                assert(pre[i] == addrs[i] && pre[j] == addrs[j]);
            }
        }
        lemma_register_distinct(pre, conns.drop_last());
        let r = register_all(e, pre, conns.drop_last());
        let a = addrs.last();
        if has_addr(r, a) {
            let i = choose|i: int| 0 <= i < r.len() && r[i].0 == a;
            assert(addresses(r)[i] == a);
            assert(addrs[i] == addrs[addrs.len() - 1]);
        }
        assert(!has_addr(r, a));
        assert(register_all(e, addrs, conns) == r.push((a, conns.last())));
        assert(addresses(r.push((a, conns.last()))) =~= addresses(r).push(a));
        assert(pre.push(a) =~= addrs);
    }
}

/// Registering over an occupied address keeps the count, displaces exactly
/// the connection that held it, and leaves the new one in its place.
pub proof fn lemma_register_replaces<C>(s: Seq<(NetAddress, C)>, a: NetAddress, c: C)
    requires
        unique_addrs(s),
        has_addr(s, a),
    ensures
        after_register(s, a, c).len() == s.len(),
        unique_addrs(after_register(s, a, c)),
        occupant(after_register(s, a, c), a) == Some(c),
        addresses(after_register(s, a, c)) == addresses(s),
{
    let t = after_register(s, a, c);
    let i = slot_of(s, a);
    assert(addresses(t) =~= addresses(s));
    assert(unique_addrs(t)) by {
        assert forall|x: int, y: int| 0 <= x < y < t.len() implies t[x].0 != t[y].0 by {
            assert(addresses(t)[x] == addresses(s)[x]);
            assert(addresses(t)[y] == addresses(s)[y]);
        }
    }
    assert(t[i].0 == a);
    let j = slot_of(t, a);
    if j != i {
        if j < i {
            assert(t[j].0 != t[i].0);
        } else {
            assert(t[i].0 != t[j].0);
        }
    }
}

} // verus!
