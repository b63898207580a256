//! What the event loop knows of its connections, apart from the sockets:
//! one record per client connection, the pairing of each destination
//! connection with the client it serves, the queue of connections to close,
//! and the identifier counter. Identifier 0 is the listening socket.
use vstd::prelude::*;
use std::collections::HashMap;
use crate::server::{fresh_handler, ChildHandler, HandlerView};
use crate::tokens::Tokens;

verus! {

broadcast use vstd::std_specs::hash::group_hash_axioms;

/// The tables as plain values.
pub struct TableView {
    /// Client records by identifier.
    pub children: Map<usize, HandlerView>,
    /// The client identifier each destination identifier serves.
    pub proxies: Map<usize, usize>,
    /// Identifiers waiting to be closed; the last one goes first.
    pub pending: Seq<usize>,
    /// The identifier most recently handed out.
    pub last: nat,
}

/// Identifiers are handed out once: every one in use is between 1 and the
/// last handed out, names one kind of connection, and a record is filed
/// under its own identifier.
pub open spec fn table_wf(t: TableView) -> bool {
    &&& forall|k: usize| #[trigger] t.children.contains_key(k) ==> 1 <= k <= t.last && t.children[k].token == k
    &&& forall|k: usize| #[trigger] t.proxies.contains_key(k) ==> 1 <= k <= t.last
    &&& forall|k: usize| !(#[trigger] t.children.contains_key(k) && t.proxies.contains_key(k))
}

/// The tables after closing connection `id`, and the identifiers whose sockets
/// must be closed. Closing a client also closes its destination; closing a
/// destination ends only the pairing. An unknown identifier changes nothing.
pub open spec fn terminated(t: TableView, id: usize) -> (TableView, Seq<usize>) {
    if t.proxies.contains_key(id) {
        (TableView { proxies: t.proxies.remove(id), ..t }, seq![id])
    } else if t.children.contains_key(id) {
        match t.children[id].dst_token {
            Some(d) => (
                TableView { children: t.children.remove(id), proxies: t.proxies.remove(d), ..t },
                seq![id, d],
            ),
            None => (TableView { children: t.children.remove(id), ..t }, seq![id]),
        }
    } else {
        (t, Seq::empty())
    }
}

/// Closing keeps the tables well formed.
pub proof fn lemma_terminated_wf(t: TableView, id: usize)
    requires
        table_wf(t),
    ensures
        table_wf(terminated(t, id).0),
{
}

/// Closing a connection twice (both legs may ask for it) is the same as
/// closing it once: the second time changes nothing and closes no socket.
pub proof fn lemma_terminate_idempotent(t: TableView, id: usize)
    requires
        table_wf(t),
    ensures
        terminated(terminated(t, id).0, id).0 == terminated(t, id).0,
        terminated(terminated(t, id).0, id).1.len() == 0,
{
    let t1 = terminated(t, id).0;
    if t.proxies.contains_key(id) {
        assert(!t.children.contains_key(id));
    } else if t.children.contains_key(id) {
        assert(!t1.children.contains_key(id));
        assert(!t1.proxies.contains_key(id));
    }
}

/// The event loop's connection tables.
pub struct ConnectionTable {
    children: HashMap<usize, ChildHandler>,
    proxies: HashMap<usize, usize>,
    pending: Vec<usize>,
    tokens: Tokens,
}

impl View for ConnectionTable {
    type V = TableView;

    closed spec fn view(&self) -> TableView {
        TableView {
            children: self.children@.map_values(|h: ChildHandler| h@),
            proxies: self.proxies@,
            pending: self.pending@,
            last: self.tokens.last(),
        }
    }
}

impl ConnectionTable {
    /// The tables are well formed (see `table_wf`); `new` makes them so and
    /// every method keeps them so.
    pub open spec fn wf(&self) -> bool {
        table_wf(self@)
    }

    pub fn new() -> (r: ConnectionTable)
        ensures
            r.wf(),
            r@.children.is_empty(),
            r@.proxies.is_empty(),
            r@.pending.len() == 0,
            r@.last == 0,
    {
        let r = ConnectionTable {
            children: HashMap::new(),
            proxies: HashMap::new(),
            pending: Vec::new(),
            tokens: Tokens::new(),
        };
        assert(r@.children =~= Map::empty());
        r
    }

    /// Files a fresh record for a newly accepted client under a new
    /// identifier; `None` once every identifier has been handed out.
    pub fn accept(&mut self) -> (r: Option<mio::Token>)
        ensures
            old(self).wf() ==> final(self).wf(),
            old(self)@.last == usize::MAX ==> r is None && final(self)@ == old(self)@,
            old(self)@.last < usize::MAX ==> (r matches Some(t) && t.0 == old(self)@.last + 1 && (old(
                self,
            ).wf() ==> !old(self)@.children.contains_key(t.0)) && final(self)@ == (TableView {
                children: old(self)@.children.insert(t.0, fresh_handler(t.0)),
                last: t.0 as nat,
                ..old(self)@
            })),
    {
        if self.tokens.exhausted() {
            return None;
        }
        let token = self.tokens.next();
        let handler = ChildHandler::new(&token);
        let id = token.0;
        self.children.insert(id, handler);
        assert(self@.children =~= old(self)@.children.insert(id, fresh_handler(id)));
        Some(token)
    }

    /// Which client record an identifier belongs to, and whether it names the
    /// destination leg.
    pub fn owner(&self, id: usize) -> (r: Option<(usize, bool)>)
        ensures
            r matches Some((c, _)) ==> self@.children.contains_key(c) || self@.proxies.contains_key(id),
            self@.proxies.contains_key(id) ==> r == Some((self@.proxies[id], true)),
            !self@.proxies.contains_key(id) && self@.children.contains_key(id) ==> r == Some((id, false)),
            !self@.proxies.contains_key(id) && !self@.children.contains_key(id) ==> r is None,
    {
        match self.proxies.get(&id) {
            Some(client) => Some((*client, true)),
            None => {
                if self.children.contains_key(&id) {
                    Some((id, false))
                } else {
                    None
                }
            },
        }
    }

    /// Takes a client record out to work on it; `put` files it back.
    pub fn take(&mut self, id: usize) -> (r: Option<ChildHandler>)
        ensures
            old(self).wf() ==> final(self).wf(),
            match r {
                Some(h) => old(self)@.children.contains_key(id) && h@ == old(self)@.children[id],
                None => !old(self)@.children.contains_key(id),
            },
            final(self)@ == (TableView { children: old(self)@.children.remove(id), ..old(self)@ }),
    {
        let r = self.children.remove(&id);
        assert(self@.children =~= old(self)@.children.remove(id));
        r
    }

    /// Files a record back under its own identifier. A record whose
    /// identifier was not handed out as a client's is refused: `false`, and
    /// the tables are unchanged.
    pub fn put(&mut self, handler: ChildHandler) -> (r: bool)
        ensures
            old(self).wf() ==> final(self).wf(),
            r == (1 <= handler@.token <= old(self)@.last && !old(self)@.proxies.contains_key(handler@.token)),
            r ==> final(self)@ == (TableView {
                children: old(self)@.children.insert(handler@.token, handler@),
                ..old(self)@
            }),
            !r ==> final(self)@ == old(self)@,
    {
        let id = handler.get_token().0;
        if id == 0 || id > self.tokens.last_exec() || self.proxies.contains_key(&id) {
            return false;
        }
        let ghost hv = handler@;
        self.children.insert(id, handler);
        assert(self@.children =~= old(self)@.children.insert(id, hv));
        true
    }

    /// Pairs client `client` with a new destination identifier, once: `None`
    /// when there is no such record or it is already paired.
    pub fn register_proxy(&mut self, client: usize) -> (r: Option<mio::Token>)
        ensures
            old(self).wf() ==> final(self).wf(),
            old(self)@.last < usize::MAX && old(self)@.children.contains_key(client)
                && old(self)@.children[client].dst_token is None ==> (r
                matches Some(t) && t.0 == old(self)@.last + 1 && final(self)@ == (TableView {
                children: old(self)@.children.insert(
                    client,
                    HandlerView {
                        dst_token: Some(t.0),
                        proxy_inited: true,
                        ..old(self)@.children[client]
                    },
                ),
                proxies: old(self)@.proxies.insert(t.0, client),
                last: t.0 as nat,
                ..old(self)@
            })),
            !(old(self)@.last < usize::MAX && old(self)@.children.contains_key(client)
                && old(self)@.children[client].dst_token is None) ==> r is None && final(self)@ == old(self)@,
    {
        if self.tokens.exhausted() {
            return None;
        }
        let mut handler = match self.children.remove(&client) {
            Some(h) => h,
            None => {
                assert(self@.children =~= old(self)@.children);
                return None;
            },
        };
        if !handler.is_dst_token_empty() {
            let ghost hv = handler@;
            self.children.insert(client, handler);
            assert(self@.children =~= old(self)@.children);
            return None;
        }
        let token = self.tokens.next();
        let id = token.0;
        handler.set_dst_token(token);
        handler.set_proxy_inited(true);
        let ghost hv = handler@;
        self.children.insert(client, handler);
        self.proxies.insert(id, client);
        assert(self@.children =~= old(self)@.children.insert(client, hv));
        Some(mio::Token(id))
    }

    /// Queues connection `id` to be closed at the start of the next round.
    pub fn queue_termination(&mut self, id: usize)
        ensures
            old(self).wf() ==> final(self).wf(),
            final(self)@ == (TableView { pending: old(self)@.pending.push(id), ..old(self)@ }),
    {
        self.pending.push(id);
    }

    pub fn has_pending_termination(&self) -> (r: bool)
        ensures
            r == (self@.pending.len() > 0),
    {
        self.pending.len() > 0
    }

    /// Closes connection `id` in the tables; the identifiers whose sockets
    /// must be closed.
    pub fn terminate(&mut self, id: usize) -> (r: Vec<usize>)
        ensures
            old(self).wf() ==> final(self).wf(),
            final(self)@ == terminated(old(self)@, id).0,
            r@ == terminated(old(self)@, id).1,
    {
        proof {
            if old(self).wf() {
                lemma_terminated_wf(old(self)@, id);
            }
        }
        let mut closed: Vec<usize> = Vec::new();
        if self.proxies.contains_key(&id) {
            self.proxies.remove(&id);
            closed.push(id);
            assert(closed@ =~= seq![id]);
            return closed;
        }
        match self.children.remove(&id) {
            None => {
                assert(self@.children =~= old(self)@.children);
                assert(closed@ =~= Seq::<usize>::empty());
            },
            Some(handler) => {
                assert(self@.children =~= old(self)@.children.remove(id));
                closed.push(id);
                match handler.get_dst_token() {
                    Some(d) => {
                        let dst = d.0;
                        self.proxies.remove(&dst);
                        closed.push(dst);
                        assert(closed@ =~= seq![id, dst]);
                    },
                    None => {
                        assert(closed@ =~= seq![id]);
                    },
                }
            },
        }
        closed
    }

    /// Closes the connection queued last, if any; the identifiers whose
    /// sockets must be closed.
    pub fn next_termination(&mut self) -> (r: Option<Vec<usize>>)
        ensures
            old(self).wf() ==> final(self).wf(),
            old(self)@.pending.len() == 0 ==> r is None && final(self)@ == old(self)@,
            old(self)@.pending.len() > 0 ==> ({
                let id = old(self)@.pending.last();
                let popped = TableView { pending: old(self)@.pending.drop_last(), ..old(self)@ };
                r matches Some(v) && v@ == terminated(popped, id).1 && final(self)@ == terminated(popped, id).0
            }),
    {
        match self.pending.pop() {
            None => None,
            Some(id) => {
                assert(self@.pending =~= old(self)@.pending.drop_last());
                Some(self.terminate(id))
            },
        }
    }
}

} // verus!
