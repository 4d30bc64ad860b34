//! The table of connected peers that every connection task shares: the
//! sending handle of each client, keyed by the client's id, and of each game
//! server, keyed by the number of its connection.
use std::collections::HashMap;
use vstd::prelude::*;

verus! {

/// The shared peer table. `T` is the handle through which a peer is sent
/// messages.
pub struct Shared<T> {
    clients: HashMap<i64, T>,
    servers: HashMap<u64, T>,
}

impl<T> Shared<T> {
    /// The handle of each connected client, by client id.
    pub closed spec fn clients(&self) -> Map<i64, T> {
        self.clients@
    }

    /// The handle of each connected server, by connection number.
    pub closed spec fn servers(&self) -> Map<u64, T> {
        self.servers@
    }

    /// An empty table.
    pub fn new() -> (s: Self)
        ensures
            s.clients() == Map::<i64, T>::empty(),
            s.servers() == Map::<u64, T>::empty(),
    {
        Shared { clients: HashMap::new(), servers: HashMap::new() }
    }

    /// Enters a peer that has just connected: a server under its connection
    /// number, a client under its id. An entry already under that key is
    /// replaced.
    pub fn register(&mut self, is_server: bool, client_id: i64, server_key: u64, handle: T)
        ensures
            is_server ==> final(self).servers() == old(self).servers().insert(server_key, handle)
                && final(self).clients() == old(self).clients(),
            !is_server ==> final(self).clients() == old(self).clients().insert(client_id, handle)
                && final(self).servers() == old(self).servers(),
    {
        if is_server {
            self.servers.insert(server_key, handle);
        } else {
            self.clients.insert(client_id, handle);
        }
    }

    /// Drops the client with this id, if there is one.
    pub fn forget_client(&mut self, id: i64)
        ensures
            final(self).clients() == old(self).clients().remove(id),
            final(self).servers() == old(self).servers(),
    {
        let _ = self.clients.remove(&id);
    }

    /// Drops the server with this connection number, if there is one.
    pub fn forget_server(&mut self, key: u64)
        ensures
            final(self).servers() == old(self).servers().remove(key),
            final(self).clients() == old(self).clients(),
    {
        let _ = self.servers.remove(&key);
    }

    /// The handle of the client with this id.
    pub fn client(&self, id: i64) -> (res: Option<&T>)
        ensures
            match res {
                Some(h) => self.clients().contains_key(id) && *h == self.clients()[id],
                None => !self.clients().contains_key(id),
            },
    {
        self.clients.get(&id)
    }

    /// The handle of the server with this connection number.
    pub fn server(&self, key: u64) -> (res: Option<&T>)
        ensures
            match res {
                Some(h) => self.servers().contains_key(key) && *h == self.servers()[key],
                None => !self.servers().contains_key(key),
            },
    {
        self.servers.get(&key)
    }

    /// The ids of all connected clients, each once, in no set order.
    pub fn client_ids(&self) -> (res: Vec<i64>)
        ensures
            res@.to_set() == self.clients().dom(),
            res@.no_duplicates(),
    {
        let mut res: Vec<i64> = Vec::new();
        let ghost all = vstd::std_specs::iter::IteratorSpec::remaining(
            &vstd::std_specs::hash::spec_keys_iter(&self.clients),
        );
        for k in it: self.clients.keys()
            invariant
                it.seq() == all,
                res@.len() == it.index(),
                forall|i: int| 0 <= i < it.index() ==> res@[i] == *all[i],
        {
            res.push(*k);
        }
        assert(res@ =~= all.unref());
        res
    }

    /// The connection numbers of all connected servers, each once, in no set
    /// order.
    pub fn server_keys(&self) -> (res: Vec<u64>)
        ensures
            res@.to_set() == self.servers().dom(),
            res@.no_duplicates(),
    {
        let mut res: Vec<u64> = Vec::new();
        let ghost all = vstd::std_specs::iter::IteratorSpec::remaining(
            &vstd::std_specs::hash::spec_keys_iter(&self.servers),
        );
        for k in it: self.servers.keys()
            invariant
                it.seq() == all,
                res@.len() == it.index(),
                forall|i: int| 0 <= i < it.index() ==> res@[i] == *all[i],
        {
            res.push(*k);
        }
        assert(res@ =~= all.unref());
        res
    }
}

/// What registering and forgetting a client do to the lookup of any id: a
/// client registered under `id` is found there with its handle, forgetting
/// `id` makes it unknown, and no other id changes.
pub proof fn lemma_client_table<T>(before: Map<i64, T>, id: i64, handle: T, other: i64)
    requires
        other != id,
    ensures
        before.insert(id, handle).contains_key(id),
        before.insert(id, handle)[id] == handle,
        !before.remove(id).contains_key(id),
        before.insert(id, handle).contains_key(other) == before.contains_key(other),
        before.remove(id).contains_key(other) == before.contains_key(other),
        before.contains_key(other) ==> before.insert(id, handle)[other] == before[other]
            && before.remove(id)[other] == before[other],
{
}

} // verus!
