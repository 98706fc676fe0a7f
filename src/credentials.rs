use vstd::prelude::*;

use crate::config::{new_uuid, RemoteServer};

verus! {

/// Fields of a server that an administrator adds.
pub struct AddServerRequest {
    pub name: String,
    pub url: String,
    pub location: String,
    pub provider: String,
    pub tag: String,
}

/// Fields of a server to change; `None` keeps the field.
pub struct UpdateServerRequest {
    pub name: Option<String>,
    pub location: Option<String>,
    pub provider: Option<String>,
    pub tag: Option<String>,
}

/// An agent registering itself.
pub struct AgentRegisterRequest {
    pub name: String,
    pub location: String,
    pub provider: String,
}

/// The credential handed to a registered agent.
pub struct AgentRegisterResponse {
    pub id: String,
    pub token: String,
}

/// How a presented credential compares with the store.
pub enum AuthCheck {
    Accepted,
    UnknownServer,
    InvalidToken,
}

/// Position of the first server with id `id`, or -1.
pub open spec fn index_of(s: Seq<RemoteServer>, id: Seq<char>) -> int
    decreases s.len(),
{
    if s.len() == 0 {
        -1
    } else {
        let k = index_of(s.drop_last(), id);
        if k >= 0 {
            k
        } else if s.last().id@ == id {
            s.len() - 1
        } else {
            -1
        }
    }
}

pub open spec fn ids_unique(s: Seq<RemoteServer>) -> bool {
    forall|i: int, j: int| 0 <= i < j < s.len() ==> s[i].id@ != s[j].id@
}

pub open spec fn auth_check_spec(s: Seq<RemoteServer>, id: Seq<char>, token: Seq<char>) -> AuthCheck {
    let k = index_of(s, id);
    if k < 0 {
        AuthCheck::UnknownServer
    } else if s[k].token@ == token {
        AuthCheck::Accepted
    } else {
        AuthCheck::InvalidToken
    }
}

/// The servers whose id is not `id`, in order.
pub open spec fn without_id(s: Seq<RemoteServer>, id: Seq<char>) -> Seq<RemoteServer>
    decreases s.len(),
{
    if s.len() == 0 {
        Seq::empty()
    } else {
        let prev = without_id(s.drop_last(), id);
        if s.last().id@ == id {
            prev
        } else {
            prev.push(s.last())
        }
    }
}

/// `a` and `b` differ at most in the version and address an agent reports.
pub open spec fn same_but_agent_info(a: RemoteServer, b: RemoteServer) -> bool {
    &&& a.id == b.id
    &&& a.name == b.name
    &&& a.url == b.url
    &&& a.location == b.location
    &&& a.provider == b.provider
    &&& a.tag == b.tag
    &&& a.token == b.token
}

pub open spec fn patched(s: RemoteServer, p: UpdateServerRequest) -> RemoteServer {
    RemoteServer {
        name: match p.name {
            Some(v) => v,
            None => s.name,
        },
        location: match p.location {
            Some(v) => v,
            None => s.location,
        },
        provider: match p.provider {
            Some(v) => v,
            None => s.provider,
        },
        tag: match p.tag {
            Some(v) => v,
            None => s.tag,
        },
        ..s
    }
}

proof fn lemma_index_of(s: Seq<RemoteServer>, id: Seq<char>)
    ensures
        -1 <= index_of(s, id) < s.len(),
        index_of(s, id) >= 0 ==> s[index_of(s, id)].id@ == id,
        index_of(s, id) >= 0 ==> forall|j: int| 0 <= j < index_of(s, id) ==> s[j].id@ != id,
        index_of(s, id) < 0 ==> forall|j: int| 0 <= j < s.len() ==> s[j].id@ != id,
    decreases s.len(),
{
    if s.len() > 0 {
        let p = s.drop_last();
        lemma_index_of(p, id);
        assert(forall|j: int| 0 <= j < p.len() ==> p[j] == s[j]);
    }
}

/// Compares two secrets without stopping at the first difference.
pub fn tokens_match(a: &str, b: &str) -> (r: bool)
    ensures
        r == (a@ == b@),
{
    let x = crate::text::chars_of(a);
    let y = crate::text::chars_of(b);
    if x.len() != y.len() {
        return false;
    }
    let mut differ = false;
    let mut i: usize = 0;
    while i < x.len()
        invariant
            i <= x@.len(),
            x@.len() == y@.len(),
            differ == exists|j: int| 0 <= j < i && x@[j] != y@[j],
        decreases x@.len() - i,
    {
        let ne = x[i] != y[i];
        differ = ne || differ;
        i = i + 1;
    }
    if !differ {
        assert(x@ =~= y@);
    }
    !differ
}

/// The authoritative list of servers and their agent tokens.
pub struct CredentialStore {
    pub servers: Vec<RemoteServer>,
}

impl CredentialStore {
    pub open spec fn wf(&self) -> bool {
        ids_unique(self.servers@)
    }

    pub fn new() -> (r: CredentialStore)
        ensures
            r.wf(),
            r.servers@.len() == 0,
    {
        CredentialStore { servers: Vec::new() }
    }

    /// Position of the server with id `id`.
    pub fn position(&self, id: &str) -> (r: Option<usize>)
        ensures
            match r {
                Some(k) => k == index_of(self.servers@, id@) && k < self.servers@.len(),
                None => index_of(self.servers@, id@) < 0,
            },
            -1 <= index_of(self.servers@, id@) < self.servers@.len(),
    {
        let ghost s = self.servers@;
        proof {
            lemma_index_of(s, id@);
        }
        let mut i: usize = 0;
        while i < self.servers.len()
            invariant
                i <= s.len(),
                self.servers@ == s,
                forall|j: int| 0 <= j < i ==> s[j].id@ != id@,
                -1 <= index_of(s, id@) < s.len(),
                index_of(s, id@) >= 0 ==> s[index_of(s, id@)].id@ == id@,
                index_of(s, id@) >= 0 ==> forall|j: int| 0 <= j < index_of(s, id@) ==> s[j].id@ != id@,
                index_of(s, id@) < 0 ==> forall|j: int| 0 <= j < s.len() ==> s[j].id@ != id@,
            decreases s.len() - i,
        {
            if crate::text::same_text(self.servers[i].id.as_str(), id) {
                return Some(i);
            }
            i = i + 1;
        }
        None
    }

    /// A copy of the server with id `id`.
    pub fn find_by_id(&self, id: &str) -> (r: Option<RemoteServer>)
        ensures
            index_of(self.servers@, id@) < 0 ==> r is None,
            index_of(self.servers@, id@) >= 0 ==> r == Some(self.servers@[index_of(self.servers@, id@)]),
    {
        match self.position(id) {
            Some(k) => Some(self.servers[k].copy()),
            None => None,
        }
    }

    /// Whether `id` is known and `token` is its agent token, and if not, why.
    pub fn check(&self, id: &str, token: &str) -> (r: AuthCheck)
        ensures
            r == auth_check_spec(self.servers@, id@, token@),
    {
        match self.position(id) {
            Some(k) => {
                if tokens_match(self.servers[k].token.as_str(), token) {
                    AuthCheck::Accepted
                } else {
                    AuthCheck::InvalidToken
                }
            },
            None => AuthCheck::UnknownServer,
        }
    }

    /// Whether `id` is known and `token` is its agent token.
    pub fn verify(&self, id: &str, token: &str) -> (r: bool)
        ensures
            r == (auth_check_spec(self.servers@, id@, token@) is Accepted),
    {
        match self.check(id, token) {
            AuthCheck::Accepted => true,
            _ => false,
        }
    }

    /// Adds `record` unless a server with its id exists; says whether it did.
    pub fn insert(&mut self, record: RemoteServer) -> (r: bool)
        requires
            old(self).wf(),
        ensures
            final(self).wf(),
            r == (index_of(old(self).servers@, record.id@) < 0),
            r ==> final(self).servers@ == old(self).servers@.push(record),
            !r ==> final(self).servers@ == old(self).servers@,
    {
        proof {
            lemma_index_of(self.servers@, record.id@);
        }
        match self.position(record.id.as_str()) {
            Some(_) => false,
            None => {
                self.servers.push(record);
                true
            },
        }
    }

    /// Removes the server with id `id`, if any.
    pub fn delete(&mut self, id: &str)
        requires
            old(self).wf(),
        ensures
            final(self).wf(),
            final(self).servers@ == without_id(old(self).servers@, id@),
    {
        let ghost s = self.servers@;
        let mut kept: Vec<RemoteServer> = Vec::new();
        let mut i: usize = 0;
        while i < self.servers.len()
            invariant
                i <= s.len(),
                self.servers@ == s,
                ids_unique(s),
                kept@ == without_id(s.take(i as int), id@),
                forall|k: int| 0 <= k < kept@.len() ==> exists|j: int| 0 <= j < i && #[trigger] kept@[k] == s[j],
                ids_unique(kept@),
            decreases s.len() - i,
        {
            assert(s.take(i as int + 1).drop_last() == s.take(i as int));
            if !crate::text::same_text(self.servers[i].id.as_str(), id) {
                proof {
                    assert forall|k: int| 0 <= k < kept@.len() implies kept@[k].id@ != s[i as int].id@ by {
                        let j = choose|j: int| 0 <= j < i && kept@[k] == s[j];
                    }
                }
                kept.push(self.servers[i].copy());
            }
            i = i + 1;
        }
        assert(s.take(s.len() as int) == s);
        self.servers = kept;
    }

    /// Applies `patch` to the server with id `id` and returns its new state,
    /// or `None` if there is no such server.
    pub fn update(&mut self, id: &str, patch: UpdateServerRequest) -> (r: Option<RemoteServer>)
        requires
            old(self).wf(),
        ensures
            final(self).wf(),
            ({
                let k = index_of(old(self).servers@, id@);
                if k < 0 {
                    r is None && final(self).servers@ == old(self).servers@
                } else {
                    &&& r == Some(patched(old(self).servers@[k], patch))
                    &&& final(self).servers@ == old(self).servers@.update(k, patched(old(self).servers@[k], patch))
                }
            }),
    {
        match self.position(id) {
            Some(k) => {
                let mut server = self.servers[k].copy();
                match patch.name {
                    Some(v) => server.name = v,
                    None => {},
                }
                match patch.location {
                    Some(v) => server.location = v,
                    None => {},
                }
                match patch.provider {
                    Some(v) => server.provider = v,
                    None => {},
                }
                match patch.tag {
                    Some(v) => server.tag = v,
                    None => {},
                }
                let out = server.copy();
                self.servers.set(k, server);
                Some(out)
            },
            None => None,
        }
    }

    /// Records the version and address an agent reported. Returns whether
    /// the server's record changed.
    pub fn record_agent_info(&mut self, id: &str, version: Option<&str>, ip: &str) -> (r: bool)
        requires
            old(self).wf(),
        ensures
            final(self).wf(),
            ({
                let s = old(self).servers@;
                let k = index_of(s, id@);
                if k < 0 {
                    !r && final(self).servers@ == s
                } else {
                    let new_version = match version {
                        Some(v) => v@,
                        None => s[k].version@,
                    };
                    &&& final(self).servers@.len() == s.len()
                    &&& forall|j: int| 0 <= j < s.len() && j != k ==> final(self).servers@[j] == s[j]
                    &&& final(self).servers@[k].version@ == new_version
                    &&& final(self).servers@[k].ip@ == ip@
                    &&& same_but_agent_info(final(self).servers@[k], s[k])
                    &&& r == (new_version != s[k].version@ || ip@ != s[k].ip@)
                }
            }),
    {
        match self.position(id) {
            Some(k) => {
                let mut server = self.servers[k].copy();
                let mut changed = false;
                match version {
                    Some(v) => {
                        if !crate::text::same_text(server.version.as_str(), v) {
                            server.version = crate::text::string_of(&crate::text::chars_of(v));
                            changed = true;
                        }
                    },
                    None => {},
                }
                if !crate::text::same_text(server.ip.as_str(), ip) {
                    server.ip = crate::text::string_of(&crate::text::chars_of(ip));
                    changed = true;
                }
                self.servers.set(k, server);
                changed
            },
            None => false,
        }
    }

    /// Adds a server with fresh random id and token. The result is `None`,
    /// and nothing changes, only if the drawn id is already taken.
    pub fn add_server(&mut self, req: AddServerRequest) -> (r: Option<RemoteServer>)
        requires
            old(self).wf(),
        ensures
            final(self).wf(),
            match r {
                Some(s) => {
                    &&& final(self).servers@ == old(self).servers@.push(s)
                    &&& s.name == req.name && s.url == req.url && s.location == req.location
                    &&& s.provider == req.provider && s.tag == req.tag
                    &&& s.id@.len() == 36 && s.token@.len() == 36
                    &&& s.version@.len() == 0 && s.ip@.len() == 0
                },
                None => {
                    &&& final(self).servers@ == old(self).servers@
                    &&& exists|j: int| 0 <= j < old(self).servers@.len() && old(self).servers@[j].id@.len() == 36
                },
            },
    {
        let id = new_uuid();
        let token = new_uuid();
        let server = RemoteServer {
            id: id,
            name: req.name,
            url: req.url,
            location: req.location,
            provider: req.provider,
            tag: req.tag,
            token: token,
            version: String::new(),
            ip: String::new(),
        };
        let out = server.copy();
        proof {
            lemma_index_of(self.servers@, server.id@);
        }
        if self.insert(server) {
            Some(out)
        } else {
            None
        }
    }

    /// Registers an agent under a fresh random id and token, with no URL or
    /// tag. `None`, with nothing changed, only if the drawn id is taken.
    pub fn register_agent(&mut self, req: AgentRegisterRequest) -> (r: Option<AgentRegisterResponse>)
        requires
            old(self).wf(),
        ensures
            final(self).wf(),
            match r {
                Some(resp) => {
                    &&& final(self).servers@.len() == old(self).servers@.len() + 1
                    &&& final(self).servers@.drop_last() == old(self).servers@
                    &&& ({
                        let s = final(self).servers@.last();
                        &&& s.id == resp.id && s.token == resp.token
                        &&& s.name == req.name && s.location == req.location && s.provider == req.provider
                        &&& s.url@.len() == 0 && s.tag@.len() == 0
                        &&& s.version@.len() == 0 && s.ip@.len() == 0
                    })
                    &&& resp.id@.len() == 36 && resp.token@.len() == 36
                },
                None => {
                    &&& final(self).servers@ == old(self).servers@
                    &&& exists|j: int| 0 <= j < old(self).servers@.len() && old(self).servers@[j].id@.len() == 36
                },
            },
    {
        let id = new_uuid();
        let token = new_uuid();
        let resp = AgentRegisterResponse { id: id.clone(), token: token.clone() };
        let server = RemoteServer {
            id: id,
            name: req.name,
            url: String::new(),
            location: req.location,
            provider: req.provider,
            tag: String::new(),
            token: token,
            version: String::new(),
            ip: String::new(),
        };
        proof {
            lemma_index_of(self.servers@, server.id@);
        }
        if self.insert(server) {
            Some(resp)
        } else {
            None
        }
    }
}

} // verus!
