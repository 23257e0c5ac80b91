//! The list of connections to Podman and the choice of the one in use.
//!
//! The manager keeps the connections in the order in which they were added,
//! keyed by their UUID, remembers which connection the current client talks
//! to, and whether a new connection is being tried. Everything that reaches
//! outside (the disk, the settings, the Podman service, the list-model
//! signals) is left to the caller: the methods here take what came back
//! from there and say what has to be done next.

use vstd::prelude::*;
use vstd::string::StrSliceExecFns;
use indexmap::IndexMap;
use futures::future::AbortHandle;
use futures::future::AbortRegistration;

use crate::abort::{abort_with_receipt, aborts, new_abort_pair, AbortReceipt};

use crate::index_map::{
    connection_entries, has_key, insert_all, insert_entry, key_index, keys_distinct,
    lemma_insert_all, lemma_insert_all_fresh, lemma_insert_all_len, lemma_insert_entry, lemma_key_index_unique, map_extend,
    map_get, map_get_index, map_get_index_of, map_insert_full, map_len, map_new,
    map_shift_remove_full,
};

verus! {

/// A connection as it is stored on disk.
#[derive(Debug, PartialEq, Eq)]
pub struct ConnectionInfo {
    pub name: String,
    pub url: String,
    /// The connection reaches a Podman service on this machine.
    pub is_local: bool,
}

/// A connection of the list, with its state.
#[derive(Debug, PartialEq, Eq)]
pub struct Connection {
    pub name: String,
    pub url: String,
    /// The connection reaches a Podman service on this machine.
    pub is_local: bool,
    /// A ping of this connection is under way.
    pub connecting: bool,
    /// The current client talks to this connection.
    pub active: bool,
}

impl Clone for Connection {
    fn clone(&self) -> (r: Self)
        ensures
            r == *self,
    {
        Connection {
            name: self.name.clone(),
            url: self.url.clone(),
            is_local: self.is_local,
            connecting: self.connecting,
            active: self.active,
        }
    }
}

/// A connection made from stored information: not connecting, not active.
pub open spec fn fresh(info: ConnectionInfo) -> Connection {
    Connection {
        name: info.name,
        url: info.url,
        is_local: info.is_local,
        connecting: false,
        active: false,
    }
}

/// What of a connection is stored on disk.
pub open spec fn info_of(c: Connection) -> ConnectionInfo {
    ConnectionInfo { name: c.name, url: c.url, is_local: c.is_local }
}

/// `c` with its `active` flag set to `a`.
pub open spec fn with_active(c: Connection, a: bool) -> Connection {
    Connection { name: c.name, url: c.url, is_local: c.is_local, connecting: c.connecting, active: a }
}

/// `c` with its `connecting` flag set to `b`.
pub open spec fn with_connecting(c: Connection, b: bool) -> Connection {
    Connection { name: c.name, url: c.url, is_local: c.is_local, connecting: b, active: c.active }
}

/// The characters of an optional UUID.
pub open spec fn key_of(o: Option<String>) -> Option<Seq<char>> {
    match o {
        Some(s) => Some(s@),
        None => None,
    }
}

/// The entries with exactly the connection of `client` active.
pub open spec fn activate(e: Seq<(Seq<char>, Connection)>, client: Option<Seq<char>>) -> Seq<(Seq<char>, Connection)> {
    e.map_values(|p: (Seq<char>, Connection)| (p.0, with_active(p.1, Some(p.0) == client)))
}

/// The entries with the `connecting` flag of key `k`, if present, set to `b`.
pub open spec fn mark_connecting(e: Seq<(Seq<char>, Connection)>, k: Seq<char>, b: bool) -> Seq<(Seq<char>, Connection)> {
    if has_key(e, k) {
        e.update(key_index(e, k), (k, with_connecting(e[key_index(e, k)].1, b)))
    } else {
        e
    }
}

/// Every connection, but that of key `except`, is active exactly when it is
/// the connection of `client`.
pub open spec fn consistent_except(e: Seq<(Seq<char>, Connection)>, client: Option<Seq<char>>, except: Option<Seq<char>>) -> bool {
    forall|i: int| 0 <= i < e.len() && Some(e[i].0) != except ==>
        (#[trigger] e[i]).1.active == (client == Some(e[i].0))
}

/// The position at which `insert` leaves key `k`.
pub open spec fn insert_position<V>(e: Seq<(Seq<char>, V)>, k: Seq<char>) -> int {
    if has_key(e, k) {
        key_index(e, k)
    } else {
        e.len() as int
    }
}

/// The keys of a list of key/value pairs are distinct.
pub open spec fn pairs_keys_distinct<V>(items: Seq<(String, V)>) -> bool {
    forall|i: int, j: int| 0 <= i < items.len() && 0 <= j < items.len() && i != j ==> items[i].0@ != items[j].0@
}

/// Some pair of the list has key `k`.
pub open spec fn pairs_have_key<V>(items: Seq<(String, V)>, k: Seq<char>) -> bool {
    exists|i: int| 0 <= i < items.len() && items[i].0@ == k
}

/// Stored connections as the map's pairs: the key's characters and a fresh connection.
pub open spec fn loaded_entries(loaded: Seq<(String, ConnectionInfo)>) -> Seq<(Seq<char>, Connection)> {
    loaded.map_values(|p: (String, ConnectionInfo)| (p.0@, fresh(p.1)))
}

/// Items of the list model that changed: `removed` items at `position`
/// were replaced by `added` items.
#[derive(Debug, Clone, Copy, PartialEq, Eq, Structural)]
pub struct ItemsChanged {
    pub position: u32,
    pub removed: u32,
    pub added: u32,
}

/// What a change of the client asks of the caller.
#[derive(Debug, PartialEq, Eq)]
pub enum ClientChange {
    /// Nothing changed.
    Unchanged,
    /// The client changed, to the connection of `remember` if any: announce
    /// the new client and, where `remember` holds a UUID, store it as the
    /// last used connection.
    Changed { remember: Option<String> },
}

/// What comes of loading the stored connections.
#[derive(Debug, PartialEq, Eq)]
pub struct SetupOutcome {
    /// The items that were added to the list model.
    pub changed: ItemsChanged,
    /// The list is not empty: connect to the last used connection. (Where it
    /// is empty, setup is done.)
    pub connect_last_used: bool,
}

/// Where the stored connections are to be read from.
#[derive(Debug, Clone, Copy, PartialEq, Eq, Structural)]
pub enum LoadStep {
    /// There is no configuration directory: create it; nothing is stored.
    CreateConfigDir,
    /// Read and parse the file of connections.
    ReadFile,
    /// There is no file of connections: nothing is stored.
    NothingStored,
}

/// How a ping of a connection ended.
#[derive(Debug, Clone, Copy, PartialEq, Eq, Structural)]
pub enum PingOutcome {
    Succeeded,
    Failed,
    /// The ping was aborted before it ended.
    Aborted,
}

/// A new connection could not be tried.
#[derive(Debug, Clone, Copy, PartialEq, Eq, Structural)]
pub enum ConnectError {
    /// A connection of that name exists already.
    NameTaken,
}

/// What comes of trying a new connection.
#[derive(Debug, PartialEq, Eq)]
pub enum TryConnectOutcome {
    /// The ping was aborted: nothing to report.
    Aborted,
    /// The ping failed: report its error.
    Failed,
    /// The connection was added and its client made current: announce the
    /// change of the list and of the client, then store the list.
    Connected { changed: ItemsChanged, client: ClientChange },
}

/// What comes of trying a new connection, with the end of the attempt.
#[derive(Debug, PartialEq, Eq)]
pub struct TryConnectFinish {
    /// The "connecting" property changed: announce it.
    pub connecting_changed: bool,
    pub outcome: TryConnectOutcome,
}

/// The first step of making the client of a stored connection current.
#[derive(Debug, Clone, Copy, PartialEq, Eq, Structural)]
pub enum SetClientFromStep {
    /// The current client talks to that connection already: nothing to do.
    AlreadyClient,
    /// There is no such connection: report that it was not found.
    NotFound,
    /// A ping of that connection is under way: nothing to do.
    AlreadyConnecting,
    /// The connection is now marked as connecting: build its client and ping it.
    Ping,
}

/// What comes of the ping of a stored connection.
#[derive(Debug, PartialEq, Eq)]
pub enum SetClientFromOutcome {
    /// The ping was aborted: nothing to report.
    Aborted,
    /// The ping failed: report its error.
    Failed,
    /// The client of the connection is current: report success.
    Connected(ClientChange),
}

/// What comes of removing a connection.
#[derive(Debug, PartialEq, Eq)]
pub struct Removed {
    /// The item that left the list model.
    pub changed: ItemsChanged,
    /// The client was that connection's, and is unset.
    pub client: ClientChange,
}

/// Where the stored connections are read from, given whether the
/// configuration directory and the file of connections exist.
pub fn load_step(config_dir_exists: bool, file_exists: bool) -> (r: LoadStep)
    ensures
        !config_dir_exists ==> r == LoadStep::CreateConfigDir,
        config_dir_exists && file_exists ==> r == LoadStep::ReadFile,
        config_dir_exists && !file_exists ==> r == LoadStep::NothingStored,
{
    if config_dir_exists {
        if file_exists {
            LoadStep::ReadFile
        } else {
            LoadStep::NothingStored
        }
    } else {
        LoadStep::CreateConfigDir
    }
}

/// The prefix of the URL of a Unix socket.
pub open spec fn unix_socket_prefix() -> Seq<char> {
    seq!['u', 'n', 'i', 'x', ':', '/', '/']
}

/// A URL of a Unix socket, which reaches a Podman service on this machine.
pub open spec fn spec_is_local_url(url: Seq<char>) -> bool {
    url.len() >= unix_socket_prefix().len() && url.subrange(0, unix_socket_prefix().len() as int) == unix_socket_prefix()
}

/// Whether a connection with this URL is local: the URL is that of a Unix
/// socket.
pub fn is_local_url(url: &str) -> (r: bool)
    ensures
        r == spec_is_local_url(url@),
{
    let prefix: [char; 7] = ['u', 'n', 'i', 'x', ':', '/', '/'];
    assert(prefix@ == unix_socket_prefix());
    if url.unicode_len() < 7 {
        return false;
    }
    let mut i: usize = 0;
    while i < 7
        invariant
            i <= 7,
            url@.len() >= 7,
            prefix@ == unix_socket_prefix(),
            forall|j: int| 0 <= j < i ==> url@[j] == unix_socket_prefix()[j],
        decreases 7 - i,
    {
        if url.get_char(i) != prefix[i] {
            assert(url@.subrange(0, 7)[i as int] != unix_socket_prefix()[i as int]);
            return false;
        }
        i += 1;
    }
    assert(url@.subrange(0, 7) =~= unix_socket_prefix());
    true
}

/// A connection made from stored information, not connecting and not active.
pub fn connection_from_info(info: ConnectionInfo) -> (c: Connection)
    ensures
        c == fresh(info),
{
    Connection { name: info.name, url: info.url, is_local: info.is_local, connecting: false, active: false }
}

/// The list of connections, keyed by UUID, and the client in use.
pub struct ConnectionManager {
    connections: IndexMap<String, Connection>,
    /// The UUID of the connection that the current client talks to.
    client: Option<String>,
    creating_new_connection: bool,
    connect_abort_handle: Option<AbortHandle>,
}

impl Default for ConnectionManager {
    fn default() -> (m: Self)
        ensures
            m.wf(),
            m.entries() == Seq::<(Seq<char>, Connection)>::empty(),
            m.client_key() is None,
            !m.creating(),
            !m.has_abort_handle(),
    {
        ConnectionManager::new()
    }
}

impl ConnectionManager {
    /// The connections, in the list's order, each with its UUID.
    pub closed spec fn entries(&self) -> Seq<(Seq<char>, Connection)> {
        connection_entries(self.connections)
    }

    /// The UUID of the connection of the current client.
    pub closed spec fn client_key(&self) -> Option<Seq<char>> {
        key_of(self.client)
    }

    /// A new connection is being tried.
    pub closed spec fn creating(&self) -> bool {
        self.creating_new_connection
    }

    /// The handle that aborts the ping under way.
    pub closed spec fn held_abort_handle(&self) -> Option<AbortHandle> {
        self.connect_abort_handle
    }

    /// A ping can be aborted.
    pub open spec fn has_abort_handle(&self) -> bool {
        self.held_abort_handle() is Some
    }

    /// No UUID occurs twice, and a connection is active exactly when the
    /// current client talks to it.
    pub open spec fn wf(&self) -> bool {
        &&& keys_distinct(self.entries())
        &&& consistent_except(self.entries(), self.client_key(), None)
    }

    /// An empty list, no client, nothing being tried.
    pub fn new() -> (m: Self)
        ensures
            m.wf(),
            m.entries() == Seq::<(Seq<char>, Connection)>::empty(),
            m.client_key() is None,
            !m.creating(),
            !m.has_abort_handle(),
    {
        ConnectionManager {
            connections: map_new(),
            client: None,
            creating_new_connection: false,
            connect_abort_handle: None,
        }
    }

    /// The number of connections, as the list model counts its items.
    pub fn n_items(&self) -> (r: u32)
        ensures
            r == self.entries().len() as u32,
    {
        map_len(&self.connections) as u32
    }

    /// The connection at `position`, with its UUID.
    pub fn item(&self, position: u32) -> (r: Option<(String, Connection)>)
        ensures
            r is Some <==> position < self.entries().len(),
            r matches Some((k, c)) ==> k@ == self.entries()[position as int].0
                && c == self.entries()[position as int].1,
    {
        match map_get_index(&self.connections, position as usize) {
            Some((k, c)) => Some((k.clone(), c.clone())),
            None => None,
        }
    }

    /// The UUID of the connection of the current client.
    pub fn client(&self) -> (r: Option<String>)
        ensures
            key_of(r) == self.client_key(),
    {
        match &self.client {
            Some(s) => Some(s.clone()),
            None => None,
        }
    }

    /// Sets the `active` flag of the connection of `key`, if there is one.
    fn set_active_of(&mut self, key: &str, value: bool)
        requires
            keys_distinct(old(self).entries()),
        ensures
            final(self).client == old(self).client,
            final(self).creating_new_connection == old(self).creating_new_connection,
            final(self).connect_abort_handle == old(self).connect_abort_handle,
            has_key(old(self).entries(), key@) ==> final(self).entries() == old(self).entries().update(
                key_index(old(self).entries(), key@),
                (key@, with_active(old(self).entries()[key_index(old(self).entries(), key@)].1, value)),
            ),
            !has_key(old(self).entries(), key@) ==> final(self).entries() == old(self).entries(),
    {
        let ghost e = self.entries();
        match map_get_index_of(&self.connections, key) {
            Some(i) => {
                let (k, c) = map_get_index(&self.connections, i).unwrap();
                let mut c = c.clone();
                let k = k.clone();
                c.active = value;
                proof {
                    lemma_key_index_unique(e, i as int);
                }
                let (j, _) = map_insert_full(&mut self.connections, k, c);
                proof {
                    lemma_key_index_unique(e, j as int);
                }
            },
            None => {},
        }
    }

    /// Sets the `connecting` flag of the connection of `key`, if there is one.
    fn set_connecting_of(&mut self, key: &str, value: bool)
        requires
            keys_distinct(old(self).entries()),
        ensures
            final(self).client == old(self).client,
            final(self).creating_new_connection == old(self).creating_new_connection,
            final(self).connect_abort_handle == old(self).connect_abort_handle,
            final(self).entries() == mark_connecting(old(self).entries(), key@, value),
    {
        let ghost e = self.entries();
        match map_get_index_of(&self.connections, key) {
            Some(i) => {
                let (k, c) = map_get_index(&self.connections, i).unwrap();
                let mut c = c.clone();
                let k = k.clone();
                c.connecting = value;
                proof {
                    lemma_key_index_unique(e, i as int);
                }
                let (j, _) = map_insert_full(&mut self.connections, k, c);
                proof {
                    lemma_key_index_unique(e, j as int);
                }
            },
            None => {},
        }
    }

    /// Makes the client of `value` current (`None`: no client). The
    /// connection of the old client stops being active and that of the new
    /// one becomes active. Nothing changes where there was no client and
    /// none is set.
    pub fn set_client(&mut self, value: Option<String>) -> (r: ClientChange)
        requires
            keys_distinct(old(self).entries()),
            consistent_except(old(self).entries(), old(self).client_key(), key_of(value)),
        ensures
            final(self).wf(),
            final(self).client_key() == key_of(value),
            final(self).creating() == old(self).creating(),
            final(self).held_abort_handle() == old(self).held_abort_handle(),
            old(self).client_key() is None && value is None ==> r == ClientChange::Unchanged
                && final(self).entries() == old(self).entries(),
            !(old(self).client_key() is None && value is None) ==> r == (ClientChange::Changed { remember: value })
                && final(self).entries() == activate(old(self).entries(), key_of(value)),
    {
        let ghost e = self.entries();
        if self.client.is_none() && value.is_none() {
            return ClientChange::Unchanged;
        }
        let old_client = self.client.take();
        match &old_client {
            Some(uuid) => self.set_active_of(uuid.as_str(), false),
            None => {},
        }
        let ghost e1 = self.entries();
        match &value {
            Some(uuid) => self.set_active_of(uuid.as_str(), true),
            None => {},
        }
        let ghost e2 = self.entries();
        proof {
            let target = activate(e, key_of(value));
            assert forall|i: int| 0 <= i < e.len() implies #[trigger] e2[i] == target[i] by {
                let k = e[i].0;
                lemma_key_index_unique(e, i);
                assert(e1[i].0 == k);
                assert(keys_distinct(e1));
                lemma_key_index_unique(e1, i);
                if key_of(value) == Some(k) {
                } else if key_of(old_client) == Some(k) {
                } else {
                    assert(e1[i] == e[i]);
                    assert(e2[i] == e1[i]);
                }
            }
            assert(e2 =~= target);
        }
        let remember = match &value {
            Some(uuid) => Some(uuid.clone()),
            None => None,
        };
        self.client = value;
        ClientChange::Changed { remember }
    }

    /// Unsets the client.
    pub fn unset_client(&mut self) -> (r: ClientChange)
        requires
            old(self).wf(),
        ensures
            final(self).wf(),
            final(self).client_key() is None,
            final(self).creating() == old(self).creating(),
            final(self).held_abort_handle() == old(self).held_abort_handle(),
            old(self).client_key() is None ==> r == ClientChange::Unchanged
                && final(self).entries() == old(self).entries(),
            old(self).client_key() is Some ==> r == (ClientChange::Changed { remember: None })
                && final(self).entries() == activate(old(self).entries(), None),
    {
        self.set_client(None)
    }

    /// Adds the stored connections, each keyed by its UUID and neither
    /// connecting nor active, as `IndexMap::extend` does: a UUID already
    /// present keeps its place and takes the stored connection.
    pub fn setup(&mut self, loaded: Vec<(String, ConnectionInfo)>) -> (r: SetupOutcome)
        requires
            old(self).wf(),
            pairs_keys_distinct(loaded@),
        ensures
            final(self).entries() == insert_all(old(self).entries(), loaded_entries(loaded@)),
            keys_distinct(final(self).entries()),
            final(self).entries().len() >= loaded@.len(),
            r.changed == (ItemsChanged {
                position: (final(self).entries().len() - loaded@.len()) as u32,
                removed: 0,
                added: loaded@.len() as u32,
            }),
            r.connect_last_used == (final(self).entries().len() as u32 > 0),
            final(self).client_key() == old(self).client_key(),
            final(self).creating() == old(self).creating(),
            final(self).held_abort_handle() == old(self).held_abort_handle(),
            (old(self).client_key() is None || !pairs_have_key(loaded@, old(self).client_key()->0))
                ==> final(self).wf(),
    {
        let ghost e = self.entries();
        let n = loaded.len();
        let mut items: Vec<(String, Connection)> = Vec::new();
        let mut rest = loaded;
        let ghost all = rest@;
        while rest.len() > 0
            invariant
                items@.len() + rest@.len() == n,
                n == all.len(),
                rest@ == all.subrange(items@.len() as int, n as int),
                forall|t: int| 0 <= t < items@.len() ==> #[trigger] items@[t].0@ == all[t].0@
                    && items@[t].1 == fresh(all[t].1),
            decreases rest.len(),
        {
            let ghost before = rest@;
            let (k, info) = rest.remove(0);
            proof {
                assert(before[0] == all[items@.len() as int]);
            }
            items.push((k, connection_from_info(info)));
            proof {
                assert(rest@ =~= all.subrange(items@.len() as int, n as int));
            }
        }
        let ghost mapped = items@.map_values(|p: (String, Connection)| (p.0@, p.1));
        proof {
            assert(mapped =~= loaded_entries(all));
            assert(keys_distinct(mapped));
            lemma_insert_all(e, mapped);
            lemma_insert_all_len(e, mapped);
        }
        map_extend(&mut self.connections, items);
        let len = map_len(&self.connections);
        proof {
            let f = self.entries();
            if self.client_key() is None || !pairs_have_key(all, self.client_key()->0) {
                assert forall|j: int| 0 <= j < f.len() implies
                    (#[trigger] f[j]).1.active == (self.client_key() == Some(f[j].0)) by {
                    if mapped.contains(f[j]) {
                        let t = choose|t: int| 0 <= t < mapped.len() && mapped[t] == f[j];
                        assert(all[t].0@ == f[j].0);
                    } else {
                        let i = choose|i: int| 0 <= i < e.len() && e[i] == f[j];
                        assert(e[i].1.active == (self.client_key() == Some(e[i].0)));
                    }
                }
            }
        }
        let changed = ItemsChanged { position: (len - n) as u32, removed: 0, added: n as u32 };
        SetupOutcome { changed, connect_last_used: self.n_items() > 0 }
    }

    /// Refuses the name of a new connection where a connection of that name
    /// exists already.
    pub fn check_name_available(&self, name: &str) -> (r: Result<(), ConnectError>)
        ensures
            r is Err <==> exists|i: int| 0 <= i < self.entries().len() && (#[trigger] self.entries()[i]).1.name@ == name@,
            r matches Err(e) ==> e == ConnectError::NameTaken,
    {
        let wanted = name.to_owned();
        let n = map_len(&self.connections);
        let mut i: usize = 0;
        while i < n
            invariant
                n == self.entries().len(),
                i <= n,
                wanted@ == name@,
                forall|j: int| 0 <= j < i ==> (#[trigger] self.entries()[j]).1.name@ != name@,
            decreases n - i,
        {
            let (_, c) = map_get_index(&self.connections, i).unwrap();
            if c.name == wanted {
                assert(self.entries()[i as int].1.name@ == name@);
                return Err(ConnectError::NameTaken);
            }
            i += 1;
        }
        Ok(())
    }

    /// Some connection reaches a Podman service on this machine.
    pub fn contains_local_connection(&self) -> (r: bool)
        ensures
            r == exists|i: int| 0 <= i < self.entries().len() && (#[trigger] self.entries()[i]).1.is_local,
    {
        let n = map_len(&self.connections);
        let mut i: usize = 0;
        while i < n
            invariant
                n == self.entries().len(),
                i <= n,
                forall|j: int| 0 <= j < i ==> !(#[trigger] self.entries()[j]).1.is_local,
            decreases n - i,
        {
            let (_, c) = map_get_index(&self.connections, i).unwrap();
            if c.is_local {
                return true;
            }
            i += 1;
        }
        false
    }

    /// A new connection is being tried, or some connection is being pinged.
    pub fn is_connecting(&self) -> (r: bool)
        ensures
            r == (self.creating()
                || exists|i: int| 0 <= i < self.entries().len() && (#[trigger] self.entries()[i]).1.connecting),
    {
        if self.creating_new_connection {
            return true;
        }
        let n = map_len(&self.connections);
        let mut i: usize = 0;
        while i < n
            invariant
                n == self.entries().len(),
                i <= n,
                forall|j: int| 0 <= j < i ==> !(#[trigger] self.entries()[j]).1.connecting,
            decreases n - i,
        {
            let (_, c) = map_get_index(&self.connections, i).unwrap();
            if c.connecting {
                return true;
            }
            i += 1;
        }
        false
    }

    /// Marks whether a new connection is being tried; the result says whether
    /// that changed, and so whether "connecting" is to be announced.
    pub fn set_creating_new_connection(&mut self, value: bool) -> (changed: bool)
        requires
            old(self).wf(),
        ensures
            final(self).wf(),
            changed == (old(self).creating() != value),
            final(self).creating() == value,
            final(self).entries() == old(self).entries(),
            final(self).client_key() == old(self).client_key(),
            final(self).held_abort_handle() == old(self).held_abort_handle(),
    {
        if self.creating_new_connection == value {
            return false;
        }
        self.creating_new_connection = value;
        true
    }

    /// Aborts the ping under way, if any: the handle that was held is
    /// aborted and no handle is held afterwards. The receipt of the abort
    /// comes back where there was a handle.
    pub fn abort(&mut self) -> (r: Option<AbortReceipt>)
        requires
            old(self).wf(),
        ensures
            final(self).wf(),
            r is Some <==> old(self).has_abort_handle(),
            r matches Some(receipt) ==> Some(receipt.handle()) == old(self).held_abort_handle(),
            final(self).held_abort_handle() is None,
            final(self).entries() == old(self).entries(),
            final(self).client_key() == old(self).client_key(),
            final(self).creating() == old(self).creating(),
    {
        match self.connect_abort_handle.take() {
            Some(handle) => Some(abort_with_receipt(handle)),
            None => None,
        }
    }

    /// Aborts the ping under way, if any, and returns the registration of
    /// the next one, whose handle is kept; with it comes the receipt of the
    /// abort of the handle that was held before.
    pub fn abort_registration(&mut self) -> (r: (AbortRegistration, Option<AbortReceipt>))
        requires
            old(self).wf(),
        ensures
            final(self).wf(),
            final(self).held_abort_handle() matches Some(h) && aborts(h, r.0),
            r.1 is Some <==> old(self).has_abort_handle(),
            r.1 matches Some(receipt) ==> Some(receipt.handle()) == old(self).held_abort_handle(),
            final(self).entries() == old(self).entries(),
            final(self).client_key() == old(self).client_key(),
            final(self).creating() == old(self).creating(),
    {
        let receipt = self.abort();
        let (handle, registration) = new_abort_pair();
        self.connect_abort_handle = Some(handle);
        (registration, receipt)
    }

    /// The connection of `uuid`, if there is one.
    pub fn connection_by_uuid(&self, uuid: &str) -> (r: Option<Connection>)
        requires
            self.wf(),
        ensures
            r is Some <==> has_key(self.entries(), uuid@),
            r matches Some(c) ==> c == self.entries()[key_index(self.entries(), uuid@)].1,
    {
        match map_get(&self.connections, uuid) {
            Some(c) => {
                proof {
                    let i = choose|i: int| 0 <= i < self.entries().len() && self.entries()[i].0 == uuid@
                        && self.entries()[i].1 == *c;
                    lemma_key_index_unique(self.entries(), i);
                }
                Some(c.clone())
            },
            None => None,
        }
    }

    /// The position of the connection of `uuid` in the list, or `u32::MAX`
    /// (the list model's invalid position) where there is none.
    pub fn position_by_uuid(&self, uuid: &str) -> (r: u32)
        requires
            self.wf(),
        ensures
            has_key(self.entries(), uuid@) ==> r == key_index(self.entries(), uuid@) as u32,
            !has_key(self.entries(), uuid@) ==> r == u32::MAX,
    {
        match map_get_index_of(&self.connections, uuid) {
            Some(i) => {
                proof {
                    lemma_key_index_unique(self.entries(), i as int);
                }
                i as u32
            },
            None => u32::MAX,
        }
    }

    /// The connections as they are stored on disk, in the list's order, each
    /// with its UUID.
    pub fn snapshot(&self) -> (r: Vec<(String, ConnectionInfo)>)
        ensures
            r@.len() == self.entries().len(),
            forall|i: int| 0 <= i < r@.len() ==> (#[trigger] r@[i]).0@ == self.entries()[i].0
                && r@[i].1 == info_of(self.entries()[i].1),
    {
        let n = map_len(&self.connections);
        let mut r: Vec<(String, ConnectionInfo)> = Vec::new();
        let mut i: usize = 0;
        while i < n
            invariant
                n == self.entries().len(),
                i <= n,
                r@.len() == i,
                forall|j: int| 0 <= j < i ==> (#[trigger] r@[j]).0@ == self.entries()[j].0
                    && r@[j].1 == info_of(self.entries()[j].1),
            decreases n - i,
        {
            let (k, c) = map_get_index(&self.connections, i).unwrap();
            r.push((k.clone(), ConnectionInfo { name: c.name.clone(), url: c.url.clone(), is_local: c.is_local }));
            i += 1;
        }
        r
    }

    /// Ends the try of a new connection of UUID `uuid`, given how its ping
    /// ended. On success the connection is added (or, where its UUID is
    /// present, takes its place) and its client made current.
    pub fn finish_try_connect(&mut self, uuid: String, info: ConnectionInfo, ping: PingOutcome) -> (r: TryConnectFinish)
        requires
            old(self).wf(),
        ensures
            final(self).wf(),
            r.connecting_changed == old(self).creating(),
            !final(self).creating(),
            final(self).held_abort_handle() == old(self).held_abort_handle(),
            ping == PingOutcome::Aborted ==> r.outcome is Aborted,
            ping == PingOutcome::Failed ==> r.outcome is Failed,
            ping != PingOutcome::Succeeded ==> final(self).entries() == old(self).entries()
                && final(self).client_key() == old(self).client_key(),
            ping == PingOutcome::Succeeded ==> {
                &&& final(self).entries() == activate(insert_entry(old(self).entries(), uuid@, fresh(info)), Some(uuid@))
                &&& final(self).client_key() == Some(uuid@)
                &&& r.outcome == (TryConnectOutcome::Connected {
                    changed: ItemsChanged {
                        position: insert_position(old(self).entries(), uuid@) as u32,
                        removed: 0,
                        added: 1,
                    },
                    client: ClientChange::Changed { remember: Some(uuid) },
                })
            },
    {
        let connecting_changed = self.set_creating_new_connection(false);
        match ping {
            PingOutcome::Aborted => TryConnectFinish { connecting_changed, outcome: TryConnectOutcome::Aborted },
            PingOutcome::Failed => TryConnectFinish { connecting_changed, outcome: TryConnectOutcome::Failed },
            PingOutcome::Succeeded => {
                let ghost e = self.entries();
                let ghost c = fresh(info);
                let key = uuid.clone();
                let (position, _) = map_insert_full(&mut self.connections, uuid, connection_from_info(info));
                proof {
                    lemma_insert_entry(e, key@, c);
                    if has_key(e, key@) {
                        lemma_key_index_unique(e, position as int);
                    }
                    let e1 = insert_entry(e, key@, c);
                    assert(self.entries() == e1);
                    assert forall|j: int| 0 <= j < e1.len() && Some(e1[j].0) != Some(key@) implies
                        (#[trigger] e1[j]).1.active == (self.client_key() == Some(e1[j].0)) by {
                        if e1[j] != (key@, c) {
                            let i = choose|i: int| 0 <= i < e.len() && e[i] == e1[j];
                            assert(e[i].1.active == (self.client_key() == Some(e[i].0)));
                        }
                    }
                }
                let client = self.set_client(Some(key));
                let changed = ItemsChanged { position: position as u32, removed: 0, added: 1 };
                TryConnectFinish { connecting_changed, outcome: TryConnectOutcome::Connected { changed, client } }
            },
        }
    }

    /// Removes the connection of `uuid`, if there is one; the client is
    /// unset where it was that connection's.
    pub fn remove_connection(&mut self, uuid: &str) -> (r: Option<Removed>)
        requires
            old(self).wf(),
        ensures
            final(self).wf(),
            r is Some <==> has_key(old(self).entries(), uuid@),
            final(self).creating() == old(self).creating(),
            final(self).held_abort_handle() == old(self).held_abort_handle(),
            r is None ==> final(self).entries() == old(self).entries()
                && final(self).client_key() == old(self).client_key(),
            r matches Some(rm) ==> {
                &&& final(self).entries() == old(self).entries().remove(key_index(old(self).entries(), uuid@))
                &&& rm.changed == (ItemsChanged {
                    position: key_index(old(self).entries(), uuid@) as u32,
                    removed: 1,
                    added: 0,
                })
                &&& old(self).client_key() == Some(uuid@) ==> final(self).client_key() is None
                    && rm.client == (ClientChange::Changed { remember: None })
                &&& old(self).client_key() != Some(uuid@) ==> final(self).client_key() == old(self).client_key()
                    && rm.client == ClientChange::Unchanged
            },
    {
        let ghost e = self.entries();
        let removed = map_shift_remove_full(&mut self.connections, uuid);
        match removed {
            None => None,
            Some((position, _, _)) => {
                let ghost e1 = self.entries();
                proof {
                    lemma_key_index_unique(e, position as int);
                    assert forall|a: int, b: int| 0 <= a < e1.len() && 0 <= b < e1.len() && a != b
                        implies e1[a].0 != e1[b].0 by {
                        let a0 = if a < position { a } else { a + 1 };
                        let b0 = if b < position { b } else { b + 1 };
                        assert(e1[a] == e[a0]);
                        assert(e1[b] == e[b0]);
                    }
                    assert forall|j: int| 0 <= j < e1.len() implies
                        (#[trigger] e1[j]).1.active == (self.client_key() == Some(e1[j].0)) by {
                        let j0 = if j < position { j } else { j + 1 };
                        assert(e1[j] == e[j0]);
                    }
                }
                let changed = ItemsChanged { position: position as u32, removed: 1, added: 0 };
                let is_client = match &self.client {
                    Some(c) => *c == uuid.to_owned(),
                    None => false,
                };
                if is_client {
                    let client = self.set_client(None);
                    proof {
                        assert forall|j: int| 0 <= j < e1.len() implies !(#[trigger] e1[j]).1.active by {
                            let j0 = if j < position { j } else { j + 1 };
                            assert(e1[j] == e[j0]);
                            assert(e[j0].0 != e[position as int].0);
                        }
                        assert(self.entries() =~= e1);
                    }
                    Some(Removed { changed, client })
                } else {
                    Some(Removed { changed, client: ClientChange::Unchanged })
                }
            },
        }
    }

    /// The first step of making the client of the connection of `uuid`
    /// current: where that can go on, the connection is marked as connecting.
    pub fn set_client_from_start(&mut self, uuid: &str) -> (r: SetClientFromStep)
        requires
            old(self).wf(),
        ensures
            final(self).wf(),
            final(self).client_key() == old(self).client_key(),
            final(self).creating() == old(self).creating(),
            final(self).held_abort_handle() == old(self).held_abort_handle(),
            old(self).client_key() == Some(uuid@) ==> r == SetClientFromStep::AlreadyClient,
            old(self).client_key() != Some(uuid@) && !has_key(old(self).entries(), uuid@)
                ==> r == SetClientFromStep::NotFound,
            old(self).client_key() != Some(uuid@) && has_key(old(self).entries(), uuid@)
                && old(self).entries()[key_index(old(self).entries(), uuid@)].1.connecting
                ==> r == SetClientFromStep::AlreadyConnecting,
            old(self).client_key() != Some(uuid@) && has_key(old(self).entries(), uuid@)
                && !old(self).entries()[key_index(old(self).entries(), uuid@)].1.connecting
                ==> r == SetClientFromStep::Ping,
            r != SetClientFromStep::Ping ==> final(self).entries() == old(self).entries(),
            r == SetClientFromStep::Ping ==> final(self).entries() == mark_connecting(old(self).entries(), uuid@, true),
    {
        let is_client = match &self.client {
            Some(c) => *c == uuid.to_owned(),
            None => false,
        };
        if is_client {
            return SetClientFromStep::AlreadyClient;
        }
        match self.connection_by_uuid(uuid) {
            None => SetClientFromStep::NotFound,
            Some(c) => {
                if c.connecting {
                    SetClientFromStep::AlreadyConnecting
                } else {
                    let ghost e = self.entries();
                    self.set_connecting_of(uuid, true);
                    proof {
                        lemma_mark_connecting(e, uuid@, true);
                    }
                    SetClientFromStep::Ping
                }
            },
        }
    }

    /// Ends the ping of the connection of `uuid`, given how it ended: on
    /// success its client is made current; the connection is no longer
    /// marked as connecting in any case.
    pub fn finish_set_client_from(&mut self, uuid: &str, ping: PingOutcome) -> (r: SetClientFromOutcome)
        requires
            old(self).wf(),
        ensures
            final(self).wf(),
            final(self).creating() == old(self).creating(),
            final(self).held_abort_handle() == old(self).held_abort_handle(),
            ping == PingOutcome::Aborted ==> r is Aborted,
            ping == PingOutcome::Failed ==> r is Failed,
            ping != PingOutcome::Succeeded ==> final(self).client_key() == old(self).client_key()
                && final(self).entries() == mark_connecting(old(self).entries(), uuid@, false),
            ping == PingOutcome::Succeeded ==> {
                &&& final(self).client_key() == Some(uuid@)
                &&& final(self).entries() == mark_connecting(activate(old(self).entries(), Some(uuid@)), uuid@, false)
                &&& r matches SetClientFromOutcome::Connected(ClientChange::Changed { remember: Some(s) }) && s@ == uuid@
            },
    {
        let outcome = match ping {
            PingOutcome::Aborted => SetClientFromOutcome::Aborted,
            PingOutcome::Failed => SetClientFromOutcome::Failed,
            PingOutcome::Succeeded => SetClientFromOutcome::Connected(self.set_client(Some(uuid.to_owned()))),
        };
        let ghost e = self.entries();
        proof {
            if ping == PingOutcome::Succeeded {
                lemma_activate_keys(e);
            }
        }
        self.set_connecting_of(uuid, false);
        proof {
            lemma_mark_connecting(e, uuid@, false);
        }
        outcome
    }
}

/// `mark_connecting` keeps the keys and the `active` flags.
pub proof fn lemma_mark_connecting(e: Seq<(Seq<char>, Connection)>, k: Seq<char>, b: bool)
    ensures
        mark_connecting(e, k, b).len() == e.len(),
        forall|i: int| 0 <= i < e.len() ==> (#[trigger] mark_connecting(e, k, b)[i]).0 == e[i].0
            && mark_connecting(e, k, b)[i].1.active == e[i].1.active,
{
}

/// `activate` keeps the keys, and sets the flags it says.
pub proof fn lemma_activate_keys(e: Seq<(Seq<char>, Connection)>)
    ensures
        forall|c: Option<Seq<char>>, i: int| 0 <= i < e.len() ==> (#[trigger] activate(e, c)[i]).0 == e[i].0
            && activate(e, c)[i].1.active == (Some(e[i].0) == c),
{
}

/// Stored connections loaded into an empty list are its connections, in the
/// stored order, each neither connecting nor active; `snapshot` then gives
/// back what was loaded.
pub proof fn law_load_then_snapshot(loaded: Seq<(String, ConnectionInfo)>)
    requires
        pairs_keys_distinct(loaded),
    ensures
        insert_all(Seq::<(Seq<char>, Connection)>::empty(), loaded_entries(loaded)) == loaded_entries(loaded),
        loaded_entries(loaded).len() == loaded.len(),
        forall|i: int| 0 <= i < loaded.len() ==> (#[trigger] loaded_entries(loaded)[i]).0 == loaded[i].0@
            && info_of(loaded_entries(loaded)[i].1) == loaded[i].1
            && !loaded_entries(loaded)[i].1.connecting
            && !loaded_entries(loaded)[i].1.active,
{
    let items = loaded_entries(loaded);
    assert(Seq::<(Seq<char>, Connection)>::empty() + items =~= items);
    lemma_insert_all_fresh(Seq::<(Seq<char>, Connection)>::empty(), items);
}

/// In a well-formed list at most one connection is active, the one of the
/// current client; without a client none is.
pub proof fn law_single_active(m: ConnectionManager)
    requires
        m.wf(),
    ensures
        forall|i: int, j: int| 0 <= i < m.entries().len() && 0 <= j < m.entries().len()
            && (#[trigger] m.entries()[i]).1.active && (#[trigger] m.entries()[j]).1.active ==> i == j,
        forall|i: int| 0 <= i < m.entries().len() && (#[trigger] m.entries()[i]).1.active
            ==> m.client_key() == Some(m.entries()[i].0),
        m.client_key() is None ==> forall|i: int| 0 <= i < m.entries().len() ==> !(#[trigger] m.entries()[i]).1.active,
{
}

/// After a new connection is connected (`finish_try_connect` with a
/// successful ping), it is found by its UUID at the position that was
/// announced, it is the only active connection, its name is taken, and it
/// is stored as it was given.
pub proof fn law_connected_is_found(e: Seq<(Seq<char>, Connection)>, uuid: Seq<char>, info: ConnectionInfo)
    requires
        keys_distinct(e),
    ensures
        ({
            let f = activate(insert_entry(e, uuid, fresh(info)), Some(uuid));
            &&& keys_distinct(f)
            &&& has_key(f, uuid)
            &&& key_index(f, uuid) == insert_position(e, uuid)
            &&& f[key_index(f, uuid)].1 == with_active(fresh(info), true)
            &&& info_of(f[key_index(f, uuid)].1) == info
            &&& f[key_index(f, uuid)].1.name@ == info.name@
            &&& forall|i: int| 0 <= i < f.len() && i != key_index(f, uuid) ==> !(#[trigger] f[i]).1.active
        }),
{
    let e1 = insert_entry(e, uuid, fresh(info));
    let f = activate(e1, Some(uuid));
    lemma_insert_entry(e, uuid, fresh(info));
    lemma_activate_keys(e1);
    let p = insert_position(e, uuid);
    if has_key(e, uuid) {
        lemma_key_index_unique(e, key_index(e, uuid));
    }
    assert(e1[p].0 == uuid);
    assert(keys_distinct(f)) by {
        assert forall|a: int, b: int| 0 <= a < f.len() && 0 <= b < f.len() && a != b implies f[a].0 != f[b].0 by {
            assert(f[a].0 == e1[a].0);
            assert(f[b].0 == e1[b].0);
        }
    }
    lemma_key_index_unique(f, p);
    assert forall|i: int| 0 <= i < f.len() && i != key_index(f, uuid) implies !(#[trigger] f[i]).1.active by {
        assert(f[i].0 != f[p].0);
    }
}

/// A removed connection is no longer found, and the others keep their order.
pub proof fn law_removed_not_found(e: Seq<(Seq<char>, Connection)>, uuid: Seq<char>)
    requires
        keys_distinct(e),
        has_key(e, uuid),
    ensures
        !has_key(e.remove(key_index(e, uuid)), uuid),
        keys_distinct(e.remove(key_index(e, uuid))),
        e.remove(key_index(e, uuid)).len() == e.len() - 1,
{
    let p = key_index(e, uuid);
    let r = e.remove(p);
    assert forall|j: int| 0 <= j < r.len() implies r[j].0 != uuid by {
        let j0 = if j < p { j } else { j + 1 };
        assert(r[j] == e[j0]);
    }
    assert forall|a: int, b: int| 0 <= a < r.len() && 0 <= b < r.len() && a != b implies r[a].0 != r[b].0 by {
        let a0 = if a < p { a } else { a + 1 };
        let b0 = if b < p { b } else { b + 1 };
        assert(r[a] == e[a0]);
        assert(r[b] == e[b0]);
    }
}

/// When the ping of a connection ends (`finish_set_client_from`), that
/// connection is no longer connecting; on success it is also the only
/// active connection.
pub proof fn law_ping_end_clears_connecting(e: Seq<(Seq<char>, Connection)>, uuid: Seq<char>)
    requires
        keys_distinct(e),
        has_key(e, uuid),
    ensures
        ({
            let f = mark_connecting(e, uuid, false);
            has_key(f, uuid) && !f[key_index(f, uuid)].1.connecting
        }),
        ({
            let g = mark_connecting(activate(e, Some(uuid)), uuid, false);
            &&& has_key(g, uuid)
            &&& !g[key_index(g, uuid)].1.connecting
            &&& g[key_index(g, uuid)].1.active
            &&& forall|i: int| 0 <= i < g.len() && i != key_index(g, uuid) ==> !(#[trigger] g[i]).1.active
        }),
{
    let p = key_index(e, uuid);
    lemma_key_index_unique(e, p);
    let f = mark_connecting(e, uuid, false);
    lemma_mark_connecting(e, uuid, false);
    assert(keys_distinct(f)) by {
        assert forall|a: int, b: int| 0 <= a < f.len() && 0 <= b < f.len() && a != b implies f[a].0 != f[b].0 by {
            assert(f[a].0 == e[a].0);
            assert(f[b].0 == e[b].0);
        }
    }
    lemma_key_index_unique(f, p);
    let a = activate(e, Some(uuid));
    lemma_activate_keys(e);
    assert(keys_distinct(a)) by {
        assert forall|x: int, y: int| 0 <= x < a.len() && 0 <= y < a.len() && x != y implies a[x].0 != a[y].0 by {
            assert(a[x].0 == e[x].0);
            assert(a[y].0 == e[y].0);
        }
    }
    lemma_key_index_unique(a, p);
    let g = mark_connecting(a, uuid, false);
    lemma_mark_connecting(a, uuid, false);
    assert(keys_distinct(g)) by {
        assert forall|x: int, y: int| 0 <= x < g.len() && 0 <= y < g.len() && x != y implies g[x].0 != g[y].0 by {
            assert(g[x].0 == a[x].0);
            assert(g[y].0 == a[y].0);
        }
    }
    lemma_key_index_unique(g, p);
    assert forall|i: int| 0 <= i < g.len() && i != key_index(g, uuid) implies !(#[trigger] g[i]).1.active by {
        assert(g[i].0 == e[i].0);
        assert(e[i].0 != e[p].0);
    }
}

/// A connection's position in the list and the item at that position agree:
/// `position_by_uuid` gives the one position that holds its UUID, where
/// `item` and `connection_by_uuid` find the same connection.
pub proof fn law_position_item(m: ConnectionManager, uuid: Seq<char>)
    requires
        m.wf(),
        has_key(m.entries(), uuid),
    ensures
        0 <= key_index(m.entries(), uuid) < m.entries().len(),
        m.entries()[key_index(m.entries(), uuid)].0 == uuid,
        forall|i: int| 0 <= i < m.entries().len() && (#[trigger] m.entries()[i]).0 == uuid
            ==> i == key_index(m.entries(), uuid),
{
    let i = key_index(m.entries(), uuid);
    lemma_key_index_unique(m.entries(), i);
}

/// No two connections have the same name.
pub open spec fn names_distinct(e: Seq<(Seq<char>, Connection)>) -> bool {
    forall|i: int, j: int| 0 <= i < e.len() && 0 <= j < e.len() && i != j ==> e[i].1.name@ != e[j].1.name@
}

/// Connecting a new connection whose name `check_name_available` let pass
/// keeps the names distinct.
pub proof fn law_connect_keeps_names_distinct(e: Seq<(Seq<char>, Connection)>, uuid: Seq<char>, info: ConnectionInfo)
    requires
        keys_distinct(e),
        names_distinct(e),
        forall|i: int| 0 <= i < e.len() ==> (#[trigger] e[i]).1.name@ != info.name@,
    ensures
        names_distinct(activate(insert_entry(e, uuid, fresh(info)), Some(uuid))),
{
    let e1 = insert_entry(e, uuid, fresh(info));
    let f = activate(e1, Some(uuid));
    lemma_activate_keys(e1);
    assert forall|a: int, b: int| 0 <= a < f.len() && 0 <= b < f.len() && a != b implies f[a].1.name@ != f[b].1.name@ by {
        assert(f[a].1.name == e1[a].1.name);
        assert(f[b].1.name == e1[b].1.name);
        if has_key(e, uuid) {
            let p = key_index(e, uuid);
            if a != p {
                assert(e1[a] == e[a]);
            }
            if b != p {
                assert(e1[b] == e[b]);
            }
        } else {
            if a < e.len() {
                assert(e1[a] == e[a]);
            }
            if b < e.len() {
                assert(e1[b] == e[b]);
            }
        }
    }
}

/// Removing a connection keeps the names distinct.
pub proof fn law_remove_keeps_names_distinct(e: Seq<(Seq<char>, Connection)>, i: int)
    requires
        names_distinct(e),
        0 <= i < e.len(),
    ensures
        names_distinct(e.remove(i)),
{
    let r = e.remove(i);
    assert forall|a: int, b: int| 0 <= a < r.len() && 0 <= b < r.len() && a != b implies r[a].1.name@ != r[b].1.name@ by {
        let a0 = if a < i { a } else { a + 1 };
        let b0 = if b < i { b } else { b + 1 };
        assert(r[a] == e[a0]);
        assert(r[b] == e[b0]);
    }
}

/// Changing the client or the "connecting" flags keeps the names distinct.
pub proof fn law_flags_keep_names_distinct(e: Seq<(Seq<char>, Connection)>, client: Option<Seq<char>>, k: Seq<char>, b: bool)
    requires
        names_distinct(e),
    ensures
        names_distinct(activate(e, client)),
        names_distinct(mark_connecting(e, k, b)),
{
    let f = activate(e, client);
    assert forall|x: int, y: int| 0 <= x < f.len() && 0 <= y < f.len() && x != y implies f[x].1.name@ != f[y].1.name@ by {
        assert(f[x].1.name == e[x].1.name);
        assert(f[y].1.name == e[y].1.name);
    }
    let g = mark_connecting(e, k, b);
    if has_key(e, k) {
        let p = key_index(e, k);
        assert forall|x: int, y: int| 0 <= x < g.len() && 0 <= y < g.len() && x != y implies g[x].1.name@ != g[y].1.name@ by {
            assert(g[x].1.name == e[x].1.name);
            assert(g[y].1.name == e[y].1.name);
        }
    }
}

/// A ping wrapped in the registration from `abort_registration` is stopped
/// by the next abort: the receipt that `abort` (or the next
/// `abort_registration`) hands back is for the handle that aborts it.
pub proof fn law_registration_is_aborted_next(m: ConnectionManager, registration: AbortRegistration, receipt: AbortReceipt)
    requires
        m.held_abort_handle() matches Some(h) && aborts(h, registration),
        Some(receipt.handle()) == m.held_abort_handle(),
    ensures
        aborts(receipt.handle(), registration),
{
}

/// Marking a connection as connecting (or not) sets exactly its flag: the
/// list keeps its length and keys, every other connection is unchanged, and
/// the marked one keeps its name, URL, locality and activity while its
/// `connecting` flag becomes `b`. Without that key nothing changes.
pub proof fn law_mark_connecting(e: Seq<(Seq<char>, Connection)>, k: Seq<char>, b: bool)
    requires
        keys_distinct(e),
    ensures
        mark_connecting(e, k, b).len() == e.len(),
        !has_key(e, k) ==> mark_connecting(e, k, b) == e,
        has_key(e, k) ==> {
            let i = key_index(e, k);
            let m = mark_connecting(e, k, b);
            &&& 0 <= i < e.len()
            &&& e[i].0 == k
            &&& m[i].0 == k
            &&& m[i].1.connecting == b
            &&& m[i].1.name == e[i].1.name
            &&& m[i].1.url == e[i].1.url
            &&& m[i].1.is_local == e[i].1.is_local
            &&& m[i].1.active == e[i].1.active
            &&& forall|j: int| 0 <= j < e.len() && j != i ==> #[trigger] m[j] == e[j]
        },
{
    if has_key(e, k) {
        let i = key_index(e, k);
        lemma_key_index_unique(e, i);
    }
}

/// Changing the client changes only the `active` flags: the list keeps its
/// length and keys, each connection keeps its name, URL, locality and
/// `connecting` flag, and exactly the connection of the new client is
/// active.
pub proof fn law_activate(e: Seq<(Seq<char>, Connection)>, client: Option<Seq<char>>)
    ensures
        activate(e, client).len() == e.len(),
        forall|i: int| 0 <= i < e.len() ==> {
            let a = #[trigger] activate(e, client)[i];
            &&& a.0 == e[i].0
            &&& a.1.name == e[i].1.name
            &&& a.1.url == e[i].1.url
            &&& a.1.is_local == e[i].1.is_local
            &&& a.1.connecting == e[i].1.connecting
            &&& a.1.active == (client == Some(e[i].0))
        },
{
}

} // verus!
