use vstd::prelude::*;

verus! {

/// Commands a session's inbox holds at most.
pub const INBOX_CAPACITY: usize = 16;

/// The latest sample of an agent and when it arrived (epoch seconds).
pub struct AgentEntry<M> {
    pub server_id: String,
    pub metrics: M,
    pub version: Option<String>,
    pub last_updated: i64,
}

/// An authenticated session of an agent and the commands waiting for it.
pub struct Connection {
    pub server_id: String,
    pub session: u64,
    pub inbox: Vec<String>,
}

/// Outcome of handing a command to an agent's inbox.
pub enum Enqueue {
    Queued,
    NotConnected,
    InboxFull,
}

pub open spec fn entry_index<M>(s: Seq<AgentEntry<M>>, id: Seq<char>) -> int
    decreases s.len(),
{
    if s.len() == 0 {
        -1
    } else {
        let k = entry_index(s.drop_last(), id);
        if k >= 0 {
            k
        } else if s.last().server_id@ == id {
            s.len() - 1
        } else {
            -1
        }
    }
}

pub open spec fn connection_index(s: Seq<Connection>, id: Seq<char>) -> int
    decreases s.len(),
{
    if s.len() == 0 {
        -1
    } else {
        let k = connection_index(s.drop_last(), id);
        if k >= 0 {
            k
        } else if s.last().server_id@ == id {
            s.len() - 1
        } else {
            -1
        }
    }
}

proof fn lemma_entry_index<M>(s: Seq<AgentEntry<M>>, id: Seq<char>)
    ensures
        -1 <= entry_index(s, id) < s.len(),
        entry_index(s, id) >= 0 ==> s[entry_index(s, id)].server_id@ == id,
        entry_index(s, id) >= 0 ==> forall|j: int| 0 <= j < entry_index(s, id) ==> s[j].server_id@ != id,
        entry_index(s, id) < 0 ==> forall|j: int| 0 <= j < s.len() ==> s[j].server_id@ != id,
    decreases s.len(),
{
    if s.len() > 0 {
        let p = s.drop_last();
        lemma_entry_index(p, id);
        assert(forall|j: int| 0 <= j < p.len() ==> p[j] == s[j]);
    }
}

/// Entries with the same ids at the same places are found at the same places.
proof fn lemma_entry_index_same_ids<M>(s: Seq<AgentEntry<M>>, t: Seq<AgentEntry<M>>)
    requires
        s.len() == t.len(),
        forall|j: int| 0 <= j < s.len() ==> #[trigger] t[j].server_id@ == s[j].server_id@,
    ensures
        forall|id: Seq<char>| #[trigger] entry_index(t, id) == entry_index(s, id),
    decreases s.len(),
{
    if s.len() > 0 {
        lemma_entry_index_same_ids(s.drop_last(), t.drop_last());
        assert forall|id: Seq<char>| #[trigger] entry_index(t, id) == entry_index(s, id) by {
            assert(entry_index(t.drop_last(), id) == entry_index(s.drop_last(), id));
        }
    }
}

proof fn lemma_connection_index(s: Seq<Connection>, id: Seq<char>)
    ensures
        -1 <= connection_index(s, id) < s.len(),
        connection_index(s, id) >= 0 ==> s[connection_index(s, id)].server_id@ == id,
        connection_index(s, id) >= 0 ==> forall|j: int| 0 <= j < connection_index(s, id) ==> s[j].server_id@ != id,
        connection_index(s, id) < 0 ==> forall|j: int| 0 <= j < s.len() ==> s[j].server_id@ != id,
    decreases s.len(),
{
    if s.len() > 0 {
        let p = s.drop_last();
        lemma_connection_index(p, id);
        assert(forall|j: int| 0 <= j < p.len() ==> p[j] == s[j]);
    }
}

/// The session registered for each server id, as a map.
pub open spec fn sessions_of(s: Seq<Connection>) -> Map<Seq<char>, u64> {
    Map::new(
        |id: Seq<char>| connection_index(s, id) >= 0,
        |id: Seq<char>| s[connection_index(s, id)].session,
    )
}

/// What a registration makes of the session map.
pub open spec fn after_register(m: Map<Seq<char>, u64>, id: Seq<char>, session: u64) -> Map<Seq<char>, u64> {
    m.insert(id, session)
}

/// What a release makes of the session map: the id goes only if `session`
/// is the one registered for it.
pub open spec fn after_release(m: Map<Seq<char>, u64>, id: Seq<char>, session: u64) -> Map<Seq<char>, u64> {
    if m.contains_key(id) && m[id] == session {
        m.remove(id)
    } else {
        m
    }
}

/// Process-wide state of the agents: latest samples and live sessions.
pub struct Registry<M> {
    pub entries: Vec<AgentEntry<M>>,
    pub connections: Vec<Connection>,
}

impl<M> Registry<M> {
    pub open spec fn wf(&self) -> bool {
        &&& forall|i: int, j: int|
            0 <= i < j < self.entries@.len() ==> self.entries@[i].server_id@ != self.entries@[j].server_id@
        &&& forall|i: int, j: int|
            0 <= i < j < self.connections@.len() ==> self.connections@[i].server_id@
                != self.connections@[j].server_id@
        &&& forall|i: int| 0 <= i < self.connections@.len() ==> #[trigger] self.connections@[i].inbox@.len() <= INBOX_CAPACITY
    }

    pub open spec fn sessions(&self) -> Map<Seq<char>, u64> {
        sessions_of(self.connections@)
    }

    /// The latest entry of `id`, if any.
    pub open spec fn entry(&self, id: Seq<char>) -> Option<AgentEntry<M>> {
        let k = entry_index(self.entries@, id);
        if k >= 0 { Some(self.entries@[k]) } else { None }
    }

    pub open spec fn inbox(&self, id: Seq<char>) -> Seq<String> {
        self.connections@[connection_index(self.connections@, id)].inbox@
    }

    pub fn new() -> (r: Registry<M>)
        ensures
            r.wf(),
            r.entries@.len() == 0,
            r.connections@.len() == 0,
    {
        Registry { entries: Vec::new(), connections: Vec::new() }
    }

    pub fn entry_position(&self, id: &str) -> (r: Option<usize>)
        ensures
            match r {
                Some(k) => k == entry_index(self.entries@, id@) && k < self.entries@.len(),
                None => entry_index(self.entries@, id@) < 0,
            },
    {
        let ghost s = self.entries@;
        proof {
            lemma_entry_index(s, id@);
        }
        let mut i: usize = 0;
        while i < self.entries.len()
            invariant
                i <= s.len(),
                self.entries@ == s,
                forall|j: int| 0 <= j < i ==> s[j].server_id@ != id@,
                -1 <= entry_index(s, id@) < s.len(),
                entry_index(s, id@) >= 0 ==> s[entry_index(s, id@)].server_id@ == id@,
                entry_index(s, id@) >= 0 ==> forall|j: int| 0 <= j < entry_index(s, id@) ==> s[j].server_id@ != id@,
                entry_index(s, id@) < 0 ==> forall|j: int| 0 <= j < s.len() ==> s[j].server_id@ != id@,
            decreases s.len() - i,
        {
            if crate::text::same_text(self.entries[i].server_id.as_str(), id) {
                return Some(i);
            }
            i = i + 1;
        }
        None
    }

    pub fn connection_position(&self, id: &str) -> (r: Option<usize>)
        ensures
            match r {
                Some(k) => k == connection_index(self.connections@, id@) && k < self.connections@.len(),
                None => connection_index(self.connections@, id@) < 0,
            },
    {
        let ghost s = self.connections@;
        proof {
            lemma_connection_index(s, id@);
        }
        let mut i: usize = 0;
        while i < self.connections.len()
            invariant
                i <= s.len(),
                self.connections@ == s,
                forall|j: int| 0 <= j < i ==> s[j].server_id@ != id@,
                -1 <= connection_index(s, id@) < s.len(),
                connection_index(s, id@) >= 0 ==> s[connection_index(s, id@)].server_id@ == id@,
                connection_index(s, id@) >= 0 ==> forall|j: int| 0 <= j < connection_index(s, id@) ==> s[j].server_id@ != id@,
                connection_index(s, id@) < 0 ==> forall|j: int| 0 <= j < s.len() ==> s[j].server_id@ != id@,
            decreases s.len() - i,
        {
            if crate::text::same_text(self.connections[i].server_id.as_str(), id) {
                return Some(i);
            }
            i = i + 1;
        }
        None
    }

    /// Records the latest sample of `server_id`, received at `now`.
    pub fn record_sample(&mut self, server_id: &String, metrics: M, version: Option<String>, now: i64)
        requires
            old(self).wf(),
        ensures
            final(self).wf(),
            final(self).connections@ == old(self).connections@,
            final(self).entry(server_id@) == Some(
                AgentEntry { server_id: *server_id, metrics: metrics, version: version, last_updated: now },
            ),
            forall|id: Seq<char>| id != server_id@ ==> #[trigger] final(self).entry(id) == old(self).entry(id),
    {
        let ghost s = self.entries@;
        let entry = AgentEntry { server_id: server_id.clone(), metrics: metrics, version: version, last_updated: now };
        proof {
            lemma_entry_index(s, server_id@);
        }
        match self.entry_position(server_id.as_str()) {
            Some(k) => {
                self.entries.set(k, entry);
                proof {
                    let t = self.entries@;
                    assert(t == s.update(k as int, entry));
                    lemma_entry_index_same_ids(s, t);
                    assert(entry_index(t, server_id@) == k);
                    assert forall|id: Seq<char>| id != server_id@ implies #[trigger] self.entry(id) == old(self).entry(id) by {
                        lemma_entry_index(s, id);
                        let a = entry_index(s, id);
                        if a >= 0 {
                            assert(a != k);
                            assert(t[a] == s[a]);
                        }
                    }
                }
            },
            None => {
                self.entries.push(entry);
                proof {
                    let t = self.entries@;
                    assert(t == s.push(entry));
                    assert(t.drop_last() == s);
                    assert(entry_index(t, server_id@) == s.len());
                    assert forall|id: Seq<char>| id != server_id@ implies #[trigger] self.entry(id) == old(self).entry(id) by {
                        assert(t.drop_last() == s);
                        lemma_entry_index(s, id);
                        let a = entry_index(s, id);
                        if a >= 0 {
                            assert(t[a] == s[a]);
                        }
                    }
                }
            },
        }
    }

    /// Forgets the latest sample of `server_id`.
    pub fn remove_entry(&mut self, server_id: &str)
        requires
            old(self).wf(),
        ensures
            final(self).wf(),
            final(self).connections@ == old(self).connections@,
            final(self).entry(server_id@) is None,
            forall|id: Seq<char>| id != server_id@ ==> #[trigger] final(self).entry(id) == old(self).entry(id),
    {
        let ghost s = self.entries@;
        match self.entry_position(server_id) {
            Some(k) => {
                self.entries.remove(k);
                proof {
                    let t = self.entries@;
                    assert(forall|j: int| 0 <= j < k ==> t[j] == s[j]);
                    assert(forall|j: int| k <= j < t.len() ==> t[j] == s[j + 1]);
                    lemma_entry_index(s, server_id@);
                    lemma_entry_index(t, server_id@);
                    assert(entry_index(t, server_id@) < 0) by {
                        let e = entry_index(t, server_id@);
                        if e >= 0 {
                            if e < k {
                                assert(t[e] == s[e]);
                            } else {
                                assert(t[e] == s[e + 1]);
                            }
                        }
                    }
                    assert forall|id: Seq<char>| id != server_id@ implies #[trigger] self.entry(id) == old(self).entry(id) by {
                        lemma_entry_index(s, id);
                        lemma_entry_index(t, id);
                        let a = entry_index(s, id);
                        let b = entry_index(t, id);
                        if a >= 0 {
                            assert(a != k);
                            if a < k {
                                assert(t[a] == s[a]);
                            } else {
                                assert(t[a - 1] == s[a]);
                            }
                        }
                        if b >= 0 {
                            if b < k {
                                assert(t[b] == s[b]);
                            } else {
                                assert(t[b] == s[b + 1]);
                            }
                        }
                    }
                }
            },
            None => {},
        }
    }

    /// Registers `session` as the live session of `server_id`, with an empty
    /// inbox, in place of any earlier one.
    pub fn register(&mut self, server_id: &String, session: u64)
        requires
            old(self).wf(),
        ensures
            final(self).wf(),
            final(self).entries@ == old(self).entries@,
            final(self).sessions() == after_register(old(self).sessions(), server_id@, session),
            final(self).inbox(server_id@).len() == 0,
            forall|id: Seq<char>| id != server_id@ && old(self).sessions().contains_key(id)
                ==> #[trigger] final(self).inbox(id) == old(self).inbox(id),
    {
        let ghost s = self.connections@;
        let conn = Connection { server_id: server_id.clone(), session: session, inbox: Vec::new() };
        match self.connection_position(server_id.as_str()) {
            Some(k) => {
                self.connections.set(k, conn);
            },
            None => {
                self.connections.push(conn);
            },
        }
        proof {
            let t = self.connections@;
            lemma_connection_index(s, server_id@);
            lemma_connection_index(t, server_id@);
            assert(forall|j: int| 0 <= j < s.len() && t[j].server_id@ != server_id@ ==> t[j] == s[j]);
            assert(connection_index(t, server_id@) >= 0);
            let e = connection_index(t, server_id@);
            assert(t[e].server_id@ == server_id@);
            assert(t[e] == conn) by {
                if e < s.len() && t[e] != conn {
                    assert(t[e] == s[e]);
                }
            }
            assert forall|id: Seq<char>| id != server_id@ implies
                (connection_index(t, id) >= 0) == (connection_index(s, id) >= 0)
                && (connection_index(s, id) >= 0 ==> t[connection_index(t, id)] == s[connection_index(s, id)]) by {
                lemma_connection_index(s, id);
                lemma_connection_index(t, id);
                let a = connection_index(s, id);
                let b = connection_index(t, id);
                if a >= 0 {
                    assert(t[a] == s[a]);
                }
                if b >= 0 {
                    assert(t[b].server_id@ == id);
                    assert(b < s.len());
                    assert(t[b] == s[b]);
                }
            }
            assert(self.sessions() =~= after_register(old(self).sessions(), server_id@, session));
        }
    }

    /// Ends the registration of `session` for `server_id`. A newer session
    /// registered for the same id stays.
    pub fn release(&mut self, server_id: &str, session: u64)
        requires
            old(self).wf(),
        ensures
            final(self).wf(),
            final(self).entries@ == old(self).entries@,
            final(self).sessions() == after_release(old(self).sessions(), server_id@, session),
            forall|id: Seq<char>| final(self).sessions().contains_key(id)
                ==> #[trigger] final(self).inbox(id) == old(self).inbox(id),
    {
        let ghost s = self.connections@;
        proof {
            lemma_connection_index(s, server_id@);
        }
        match self.connection_position(server_id) {
            Some(k) => {
                if self.connections[k].session == session {
                    self.connections.remove(k);
                    proof {
                        let t = self.connections@;
                        assert(forall|j: int| 0 <= j < k ==> t[j] == s[j]);
                        assert(forall|j: int| k <= j < t.len() ==> t[j] == s[j + 1]);
                        assert forall|id: Seq<char>| #![auto]
                            (connection_index(t, id) >= 0) == (connection_index(s, id) >= 0 && id != server_id@)
                            && (connection_index(t, id) >= 0 ==> t[connection_index(t, id)] == s[connection_index(s, id)]) by {
                            lemma_connection_index(s, id);
                            lemma_connection_index(t, id);
                            let a = connection_index(s, id);
                            let b = connection_index(t, id);
                            if b >= 0 {
                                if b < k {
                                    assert(t[b] == s[b]);
                                } else {
                                    assert(t[b] == s[b + 1]);
                                }
                            }
                            if a >= 0 && id != server_id@ {
                                assert(a != k);
                                if a < k {
                                    assert(t[a] == s[a]);
                                } else {
                                    assert(t[a - 1] == s[a]);
                                }
                            }
                        }
                        assert(self.sessions() =~= after_release(old(self).sessions(), server_id@, session));
                    }
                } else {
                    assert(self.sessions() =~= after_release(old(self).sessions(), server_id@, session));
                }
            },
            None => {
                assert(self.sessions() =~= after_release(old(self).sessions(), server_id@, session));
            },
        }
    }

    /// The session registered for `server_id`, if any.
    pub fn lookup_sink(&self, server_id: &str) -> (r: Option<u64>)
        ensures
            r == (if self.sessions().contains_key(server_id@) {
                Some(self.sessions()[server_id@])
            } else {
                None::<u64>
            }),
    {
        match self.connection_position(server_id) {
            Some(k) => Some(self.connections[k].session),
            None => None,
        }
    }

    /// Puts `frame` into the inbox of `server_id`'s session, unless no
    /// session is registered or its inbox is full.
    pub fn enqueue(&mut self, server_id: &str, frame: String) -> (r: Enqueue)
        requires
            old(self).wf(),
        ensures
            final(self).wf(),
            final(self).entries@ == old(self).entries@,
            final(self).sessions() == old(self).sessions(),
            !old(self).sessions().contains_key(server_id@) ==> r is NotConnected && *final(self) == *old(self),
            old(self).sessions().contains_key(server_id@) && old(self).inbox(server_id@).len() >= INBOX_CAPACITY
                ==> r is InboxFull && *final(self) == *old(self),
            old(self).sessions().contains_key(server_id@) && old(self).inbox(server_id@).len() < INBOX_CAPACITY
                ==> r is Queued && final(self).inbox(server_id@) == old(self).inbox(server_id@).push(frame),
            forall|id: Seq<char>| id != server_id@ && old(self).sessions().contains_key(id)
                ==> #[trigger] final(self).inbox(id) == old(self).inbox(id),
    {
        let ghost s = self.connections@;
        proof {
            lemma_connection_index(s, server_id@);
        }
        match self.connection_position(server_id) {
            Some(k) => {
                if self.connections[k].inbox.len() >= INBOX_CAPACITY {
                    Enqueue::InboxFull
                } else {
                    let mut conn = self.connections.remove(k);
                    conn.inbox.push(frame);
                    self.connections.insert(k, conn);
                    proof {
                        let t = self.connections@;
                        assert(forall|j: int| 0 <= j < t.len() && j != k ==> t[j] == s[j]);
                        lemma_same_ids(s, t);
                        assert forall|id: Seq<char>| id != server_id@ && #[trigger] old(self).sessions().contains_key(id)
                            implies self.inbox(id) == old(self).inbox(id) by {
                            lemma_connection_index(s, id);
                            assert(connection_index(s, id) != k);
                        }
                        assert(self.sessions() =~= old(self).sessions());
                    }
                    Enqueue::Queued
                }
            },
            None => Enqueue::NotConnected,
        }
    }

    /// Takes the commands waiting for `session` of `server_id`. Nothing is
    /// taken for a session that is no longer the registered one.
    pub fn take_commands(&mut self, server_id: &str, session: u64) -> (r: Vec<String>)
        requires
            old(self).wf(),
        ensures
            final(self).wf(),
            final(self).entries@ == old(self).entries@,
            final(self).sessions() == old(self).sessions(),
            old(self).sessions().contains_key(server_id@) && old(self).sessions()[server_id@] == session ==> {
                &&& r@ == old(self).inbox(server_id@)
                &&& final(self).inbox(server_id@).len() == 0
            },
            !(old(self).sessions().contains_key(server_id@) && old(self).sessions()[server_id@] == session)
                ==> r@.len() == 0 && *final(self) == *old(self),
            forall|id: Seq<char>| id != server_id@ && old(self).sessions().contains_key(id)
                ==> #[trigger] final(self).inbox(id) == old(self).inbox(id),
    {
        let ghost s = self.connections@;
        proof {
            lemma_connection_index(s, server_id@);
        }
        match self.connection_position(server_id) {
            Some(k) => {
                if self.connections[k].session != session {
                    return Vec::new();
                }
                let conn = self.connections.remove(k);
                let Connection { server_id: sid, session: sess, inbox: taken } = conn;
                self.connections.insert(k, Connection { server_id: sid, session: sess, inbox: Vec::new() });
                proof {
                    let t = self.connections@;
                    assert(forall|j: int| 0 <= j < t.len() && j != k ==> t[j] == s[j]);
                    lemma_same_ids(s, t);
                    assert forall|id: Seq<char>| id != server_id@ && #[trigger] old(self).sessions().contains_key(id)
                        implies self.inbox(id) == old(self).inbox(id) by {
                        lemma_connection_index(s, id);
                        assert(connection_index(s, id) != k);
                    }
                    assert(self.sessions() =~= old(self).sessions());
                }
                taken
            },
            None => Vec::new(),
        }
    }
}

proof fn lemma_same_ids(s: Seq<Connection>, t: Seq<Connection>)
    requires
        s.len() == t.len(),
        forall|j: int| 0 <= j < s.len() ==> #[trigger] t[j].server_id@ == s[j].server_id@ && t[j].session == s[j].session,
    ensures
        forall|id: Seq<char>| #[trigger] connection_index(t, id) == connection_index(s, id),
        sessions_of(t) == sessions_of(s),
    decreases s.len(),
{
    if s.len() > 0 {
        lemma_same_ids(s.drop_last(), t.drop_last());
        assert forall|id: Seq<char>| #[trigger] connection_index(t, id) == connection_index(s, id) by {
            assert(connection_index(t.drop_last(), id) == connection_index(s.drop_last(), id));
        }
    }
    assert forall|id: Seq<char>| connection_index(t, id) >= 0 implies t[connection_index(t, id)].session
        == s[connection_index(s, id)].session by {
        lemma_connection_index(t, id);
    }
    assert(sessions_of(t) =~= sessions_of(s));
}

/// A session that ends after a newer one registered for the same server
/// leaves the newer one registered: release goes by session, not by id alone.
pub proof fn lemma_newer_session_survives(m: Map<Seq<char>, u64>, id: Seq<char>, older: u64, newer: u64)
    requires
        older != newer,
    ensures
        after_release(after_register(m, id, newer), id, older).contains_key(id),
        after_release(after_register(m, id, newer), id, older)[id] == newer,
{
}

} // verus!
