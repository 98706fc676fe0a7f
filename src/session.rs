use vstd::prelude::*;

use crate::compose::{compose, snapshot_matches, DashboardMessage};
use crate::config::SiteSettings;
use crate::credentials::{auth_check_spec, index_of, AuthCheck, CredentialStore};
use crate::registry::{after_register, after_release, AgentEntry, Enqueue, Registry, INBOX_CAPACITY};
use crate::store::{raw_row_spec, MetricsStore, SampleFigures};
use crate::table::upsert_post;
use crate::text::{append_chars, chars_of, string_of};

verus! {

/// Relies on `serde_json::to_string` of a `str`: the JSON string literal
/// for it. Writing into a `Vec` cannot fail, so the error arm is never taken.
#[verifier::external_body]
fn json_string(s: &str) -> (r: String)
    ensures
        r@ == json_quoted(s@),
{
    serde_json::to_string(s).unwrap_or_default()
}

/// A lower-case hexadecimal digit.
pub open spec fn hex_digit(n: u32) -> char {
    if n < 10 { (('0' as u32) + n) as char } else { (('a' as u32) + n - 10) as char }
}

/// How a JSON string literal writes one character: quote, backslash and the
/// control characters are escaped, everything else stands as it is.
pub open spec fn escape_char(c: char) -> Seq<char> {
    if c == '"' {
        seq!['\\', '"']
    } else if c == '\\' {
        seq!['\\', '\\']
    } else if c == '\x08' {
        seq!['\\', 'b']
    } else if c == '\t' {
        seq!['\\', 't']
    } else if c == '\n' {
        seq!['\\', 'n']
    } else if c == '\x0C' {
        seq!['\\', 'f']
    } else if c == '\r' {
        seq!['\\', 'r']
    } else if (c as u32) < 0x20 {
        seq!['\\', 'u', '0', '0', hex_digit((c as u32) / 16), hex_digit((c as u32) % 16)]
    } else {
        seq![c]
    }
}

pub open spec fn escaped(s: Seq<char>) -> Seq<char>
    decreases s.len(),
{
    if s.len() == 0 {
        Seq::empty()
    } else {
        escaped(s.drop_last()) + escape_char(s.last())
    }
}

/// The JSON string literal for `s`.
pub open spec fn json_quoted(s: Seq<char>) -> Seq<char> {
    seq!['"'] + escaped(s) + seq!['"']
}

pub open spec fn auth_ok_frame() -> Seq<char> {
    "{\"type\":\"auth\",\"status\":\"ok\"}"@
}

pub open spec fn unknown_server_frame() -> Seq<char> {
    "{\"type\":\"auth\",\"status\":\"error\",\"message\":\"Server not found\"}"@
}

pub open spec fn invalid_token_frame() -> Seq<char> {
    "{\"type\":\"auth\",\"status\":\"error\",\"message\":\"Invalid token\"}"@
}

pub open spec fn missing_credentials_frame() -> Seq<char> {
    "{\"type\":\"auth\",\"status\":\"error\",\"message\":\"Missing credentials\"}"@
}

pub open spec fn not_authenticated_frame() -> Seq<char> {
    "{\"type\":\"error\",\"message\":\"Not authenticated\"}"@
}

/// The update command for an agent, with the JSON literal of the download
/// URL or `null`.
pub open spec fn command_frame_of(quoted_url: Seq<char>) -> Seq<char> {
    "{\"type\":\"command\",\"command\":\"update\",\"download_url\":"@ + quoted_url + "}"@
}

/// The update command frame for `download_url`, once the URL is written as
/// a JSON literal (`quoted_url`, or `None` for no URL).
pub fn update_frame(quoted_url: Option<&str>) -> (r: String)
    ensures
        r@ == command_frame_of(
            match quoted_url {
                Some(q) => q@,
                None => "null"@,
            },
        ),
{
    let mut v = chars_of("{\"type\":\"command\",\"command\":\"update\",\"download_url\":");
    match quoted_url {
        Some(q) => append_chars(&mut v, &chars_of(q)),
        None => append_chars(&mut v, &chars_of("null")),
    }
    append_chars(&mut v, &chars_of("}"));
    string_of(&v)
}

/// The JSON literal of a download URL, or `null` for none.
pub open spec fn quoted_url(download_url: Option<String>) -> Seq<char> {
    match download_url {
        Some(u) => json_quoted(u@),
        None => "null"@,
    }
}

/// The update command frame.
pub fn command_frame(download_url: Option<&str>) -> (r: String)
    ensures
        r@ == command_frame_of(
            match download_url {
                Some(u) => json_quoted(u@),
                None => "null"@,
            },
        ),
{
    match download_url {
        Some(u) => {
            let q = json_string(u);
            update_frame(Some(q.as_str()))
        },
        None => update_frame(None),
    }
}

/// A command for an agent.
pub struct AgentCommand {
    pub cmd_type: String,
    pub command: String,
    pub download_url: Option<String>,
}

/// A command frame with each field written as a JSON literal.
pub open spec fn command_json(quoted_type: Seq<char>, quoted_command: Seq<char>, quoted_url: Seq<char>) -> Seq<char> {
    "{\"type\":"@ + quoted_type + ",\"command\":"@ + quoted_command + ",\"download_url\":"@ + quoted_url + "}"@
}

impl AgentCommand {
    /// The self-update command.
    pub fn update(download_url: Option<String>) -> (r: AgentCommand)
        ensures
            r.cmd_type@ == "command"@,
            r.command@ == "update"@,
            r.download_url == download_url,
    {
        AgentCommand { cmd_type: text("command"), command: text("update"), download_url: download_url }
    }

    /// The command as a frame.
    pub fn frame(&self) -> (r: String)
        ensures
            r@ == command_json(json_quoted(self.cmd_type@), json_quoted(self.command@), quoted_url(self.download_url)),
    {
        let t = json_string(self.cmd_type.as_str());
        let c = json_string(self.command.as_str());
        let u = match &self.download_url {
            Some(u) => json_string(u.as_str()),
            None => text("null"),
        };
        let mut v = chars_of("{\"type\":");
        append_chars(&mut v, &chars_of(t.as_str()));
        append_chars(&mut v, &chars_of(",\"command\":"));
        append_chars(&mut v, &chars_of(c.as_str()));
        append_chars(&mut v, &chars_of(",\"download_url\":"));
        append_chars(&mut v, &chars_of(u.as_str()));
        append_chars(&mut v, &chars_of("}"));
        string_of(&v)
    }
}

/// What an administrator is told after asking for an update.
pub struct UpdateAgentResponse {
    pub success: bool,
    pub message: String,
}

/// An update request for an agent.
pub struct UpdateAgentRequest {
    pub download_url: Option<String>,
}

/// The answer for the outcome of handing the command to the inbox.
pub open spec fn update_message(e: Enqueue) -> Seq<char> {
    match e {
        Enqueue::Queued => "Update command sent to agent"@,
        Enqueue::NotConnected => "Agent is not connected"@,
        Enqueue::InboxFull => "Failed to send update command"@,
    }
}

pub fn update_response(e: Enqueue) -> (r: UpdateAgentResponse)
    ensures
        r.success == (e is Queued),
        r.message@ == update_message(e),
{
    match e {
        Enqueue::Queued => UpdateAgentResponse {
            success: true,
            message: string_of(&chars_of("Update command sent to agent")),
        },
        Enqueue::NotConnected => UpdateAgentResponse {
            success: false,
            message: string_of(&chars_of("Agent is not connected")),
        },
        Enqueue::InboxFull => UpdateAgentResponse {
            success: false,
            message: string_of(&chars_of("Failed to send update command")),
        },
    }
}

/// One sample as a metrics frame carries it: the full payload `metrics`,
/// passed through to dashboards, and the plain values the hub reads.
pub struct Sample<M> {
    pub metrics: M,
    pub figures: SampleFigures,
    pub version: Option<String>,
    pub ip_addresses: Option<Vec<String>>,
}

/// A frame received from an agent.
pub enum AgentFrame<M> {
    Auth { server_id: Option<String>, token: Option<String> },
    Metrics { sample: Option<Sample<M>> },
    Other,
}

pub enum SessionState {
    Connected,
    Authenticated { server_id: String },
    Closed,
}

/// One agent connection.
pub struct Session {
    pub id: u64,
    pub peer_ip: String,
    pub state: SessionState,
}

/// Pings left unanswered after which a session is closed.
pub const MAX_UNANSWERED_PINGS: u32 = 2;

/// At a liveness tick: whether the session is closed because too many
/// pings went unanswered.
pub fn liveness_lost(unanswered_pings: u32) -> (r: bool)
    ensures
        r == (unanswered_pings >= MAX_UNANSWERED_PINGS),
{
    unanswered_pings >= MAX_UNANSWERED_PINGS
}

impl Session {
    pub fn new(id: u64, peer_ip: String) -> (r: Session)
        ensures
            r.id == id,
            r.peer_ip == peer_ip,
            r.state is Connected,
    {
        Session { id: id, peer_ip: peer_ip, state: SessionState::Connected }
    }
}

/// What the connection must do after a frame: send `reply`, close, hand
/// `snapshot` to the dashboards, rewrite the configuration document.
pub struct FrameOutcome<M> {
    pub reply: Option<String>,
    pub close: bool,
    pub snapshot: Option<DashboardMessage<M>>,
    pub config_changed: bool,
}

pub open spec fn reply_is<M>(o: FrameOutcome<M>, frame: Seq<char>) -> bool {
    o.reply matches Some(r) && r@ == frame
}

pub open spec fn quiet<M>(o: FrameOutcome<M>) -> bool {
    o.reply is None && !o.close && o.snapshot is None && !o.config_changed
}

/// The address recorded for an agent: the first one it reports, else the
/// address the connection came from.
pub open spec fn effective_ip(ips: Option<Vec<String>>, peer_ip: Seq<char>) -> Seq<char> {
    match ips {
        Some(v) => if v@.len() > 0 { v@[0]@ } else { peer_ip },
        None => peer_ip,
    }
}

fn text(s: &str) -> (r: String)
    ensures
        r@ == s@,
{
    string_of(&chars_of(s))
}

fn quiet_outcome<M>() -> (r: FrameOutcome<M>)
    ensures
        quiet(r),
{
    FrameOutcome { reply: None, close: false, snapshot: None, config_changed: false }
}

/// The hub's shared state: credentials, agents, and the time-series store.
pub struct Hub<M> {
    pub credentials: CredentialStore,
    pub registry: Registry<M>,
    pub store: MetricsStore,
}

impl<M: Clone> Hub<M> {
    pub open spec fn wf(&self) -> bool {
        self.credentials.wf() && self.registry.wf() && self.store.wf()
    }

    pub fn new(credentials: CredentialStore, store: MetricsStore) -> (r: Hub<M>)
        requires
            credentials.wf(),
            store.wf(),
        ensures
            r.wf(),
            r.credentials == credentials,
            r.store == store,
            r.registry.entries@.len() == 0,
            r.registry.connections@.len() == 0,
    {
        Hub { credentials: credentials, registry: Registry::new(), store: store }
    }

    /// Handles one frame of `session` at `now`.
    ///
    /// Before authentication only an auth frame is acted on: valid
    /// credentials authenticate the session and register it; invalid or
    /// missing ones are answered with an error frame and close the session.
    /// A metrics frame there is answered with an error frame and stored
    /// nowhere. After authentication a metrics frame is stored, updates the
    /// server's version and address, becomes the agent's latest sample, and
    /// yields a snapshot; other frames are ignored.
    pub fn on_frame(&mut self, session: &mut Session, frame: AgentFrame<M>, now: i64) -> (r: FrameOutcome<M>)
        requires
            old(self).wf(),
        ensures
            final(self).wf(),
            final(session).id == old(session).id,
            final(session).peer_ip == old(session).peer_ip,
            match old(session).state {
                SessionState::Closed => quiet(r) && *final(self) == *old(self) && final(session).state is Closed,
                SessionState::Connected => match frame {
                    AgentFrame::Auth { server_id: Some(id), token: Some(tok) } => {
                        &&& final(self).store == old(self).store
                        &&& final(self).credentials == old(self).credentials
                        &&& r.snapshot is None && !r.config_changed
                        &&& match auth_check_spec(old(self).credentials.servers@, id@, tok@) {
                            AuthCheck::Accepted => {
                                &&& reply_is(r, auth_ok_frame()) && !r.close
                                &&& final(session).state == (SessionState::Authenticated { server_id: id })
                                &&& final(self).registry.sessions() == after_register(old(self).registry.sessions(), id@, old(session).id)
                                &&& final(self).registry.entries@ == old(self).registry.entries@
                                &&& final(self).registry.inbox(id@).len() == 0
                                &&& forall|other: Seq<char>| other != id@ && old(self).registry.sessions().contains_key(other)
                                    ==> #[trigger] final(self).registry.inbox(other) == old(self).registry.inbox(other)
                            },
                            AuthCheck::UnknownServer => {
                                &&& reply_is(r, unknown_server_frame()) && r.close
                                &&& final(session).state is Closed
                                &&& final(self).registry == old(self).registry
                            },
                            AuthCheck::InvalidToken => {
                                &&& reply_is(r, invalid_token_frame()) && r.close
                                &&& final(session).state is Closed
                                &&& final(self).registry == old(self).registry
                            },
                        }
                    },
                    AgentFrame::Auth { .. } => {
                        &&& reply_is(r, missing_credentials_frame()) && r.close
                        &&& r.snapshot is None && !r.config_changed
                        &&& final(session).state is Closed
                        &&& *final(self) == *old(self)
                    },
                    AgentFrame::Metrics { .. } => {
                        &&& reply_is(r, not_authenticated_frame()) && !r.close
                        &&& r.snapshot is None && !r.config_changed
                        &&& final(session).state == old(session).state
                        &&& *final(self) == *old(self)
                    },
                    AgentFrame::Other => quiet(r) && *final(self) == *old(self) && final(session).state == old(session).state,
                },
                SessionState::Authenticated { server_id: id } => match frame {
                    AgentFrame::Metrics { sample: Some(sample) } => {
                        let creds = old(self).credentials.servers@;
                        let k = index_of(creds, id@);
                        &&& final(session).state == old(session).state
                        &&& r.reply is None && !r.close
                        &&& upsert_post(old(self).store.raw.rows@, raw_row_spec(id, sample.figures), final(self).store.raw.rows@)
                        &&& final(self).store.hourly == old(self).store.hourly
                        &&& final(self).store.daily == old(self).store.daily
                        &&& final(self).registry.sessions() == old(self).registry.sessions()
                        &&& final(self).registry.entry(id@) == Some(
                            AgentEntry { server_id: id, metrics: sample.metrics, version: sample.version, last_updated: now },
                        )
                        &&& forall|other: Seq<char>| other != id@ ==> #[trigger] final(self).registry.entry(other) == old(self).registry.entry(other)
                        &&& k < 0 ==> final(self).credentials.servers@ == creds && !r.config_changed
                        &&& k >= 0 ==> {
                            let new_version = match sample.version {
                                Some(v) => v@,
                                None => creds[k].version@,
                            };
                            let ip = effective_ip(sample.ip_addresses, old(session).peer_ip@);
                            &&& final(self).credentials.servers@.len() == creds.len()
                            &&& forall|j: int| 0 <= j < creds.len() && j != k ==> final(self).credentials.servers@[j] == creds[j]
                            &&& final(self).credentials.servers@[k].version@ == new_version
                            &&& final(self).credentials.servers@[k].ip@ == ip
                            &&& crate::credentials::same_but_agent_info(final(self).credentials.servers@[k], creds[k])
                            &&& r.config_changed == (new_version != creds[k].version@ || ip != creds[k].ip@)
                        }
                        &&& r.snapshot matches Some(m) && m.msg_type@ == "metrics"@ && m.site_settings is None && snapshot_matches(
                            m.servers@,
                            final(self).credentials.servers@,
                            final(self).registry,
                            now,
                            None,
                        )
                    },
                    _ => quiet(r) && *final(self) == *old(self) && final(session).state == old(session).state,
                },
            },
    {
        let connected = match &session.state {
            SessionState::Closed => {
                return quiet_outcome();
            },
            SessionState::Connected => true,
            SessionState::Authenticated { .. } => false,
        };
        if connected {
            match frame {
                AgentFrame::Auth { server_id: Some(id), token: Some(tok) } => {
                    match self.credentials.check(id.as_str(), tok.as_str()) {
                        AuthCheck::Accepted => {
                            self.registry.register(&id, session.id);
                            session.state = SessionState::Authenticated { server_id: id };
                            FrameOutcome {
                                reply: Some(text("{\"type\":\"auth\",\"status\":\"ok\"}")),
                                close: false,
                                snapshot: None,
                                config_changed: false,
                            }
                        },
                        AuthCheck::UnknownServer => {
                            session.state = SessionState::Closed;
                            FrameOutcome {
                                reply: Some(text("{\"type\":\"auth\",\"status\":\"error\",\"message\":\"Server not found\"}")),
                                close: true,
                                snapshot: None,
                                config_changed: false,
                            }
                        },
                        AuthCheck::InvalidToken => {
                            session.state = SessionState::Closed;
                            FrameOutcome {
                                reply: Some(text("{\"type\":\"auth\",\"status\":\"error\",\"message\":\"Invalid token\"}")),
                                close: true,
                                snapshot: None,
                                config_changed: false,
                            }
                        },
                    }
                },
                AgentFrame::Auth { .. } => {
                    session.state = SessionState::Closed;
                    FrameOutcome {
                        reply: Some(text("{\"type\":\"auth\",\"status\":\"error\",\"message\":\"Missing credentials\"}")),
                        close: true,
                        snapshot: None,
                        config_changed: false,
                    }
                },
                AgentFrame::Metrics { .. } => FrameOutcome {
                    reply: Some(text("{\"type\":\"error\",\"message\":\"Not authenticated\"}")),
                    close: false,
                    snapshot: None,
                    config_changed: false,
                },
                AgentFrame::Other => quiet_outcome(),
            }
        } else {
            let id = match &session.state {
                SessionState::Authenticated { server_id } => server_id.clone(),
                _ => String::new(),
            };
            match frame {
                AgentFrame::Metrics { sample: Some(sample) } => {
                    let Sample { metrics, figures, version, ip_addresses } = sample;
                    self.store.insert_raw(&id, &figures);
                    let ip = match &ip_addresses {
                        Some(v) => if v.len() > 0 {
                            v[0].clone()
                        } else {
                            session.peer_ip.clone()
                        },
                        None => session.peer_ip.clone(),
                    };
                    let changed = match &version {
                        Some(v) => self.credentials.record_agent_info(id.as_str(), Some(v.as_str()), ip.as_str()),
                        None => self.credentials.record_agent_info(id.as_str(), None, ip.as_str()),
                    };
                    self.registry.record_sample(&id, metrics, version, now);
                    let snapshot = compose(&self.credentials.servers, &self.registry, now, None, None);
                    FrameOutcome { reply: None, close: false, snapshot: Some(snapshot), config_changed: changed }
                },
                _ => quiet_outcome(),
            }
        }
    }

    /// Handles the end of `session` at `now`. An authenticated session is
    /// released (a newer session of the same server stays registered) and
    /// a snapshot showing its server offline is returned.
    pub fn on_close(&mut self, session: &mut Session, now: i64) -> (r: Option<DashboardMessage<M>>)
        requires
            old(self).wf(),
        ensures
            final(self).wf(),
            final(session).state is Closed,
            final(session).id == old(session).id,
            final(self).credentials == old(self).credentials,
            final(self).store == old(self).store,
            match old(session).state {
                SessionState::Authenticated { server_id: id } => {
                    &&& final(self).registry.sessions() == after_release(old(self).registry.sessions(), id@, old(session).id)
                    &&& final(self).registry.entries@ == old(self).registry.entries@
                    &&& r matches Some(m) && m.msg_type@ == "metrics"@ && m.site_settings is None && snapshot_matches(
                        m.servers@,
                        final(self).credentials.servers@,
                        final(self).registry,
                        now,
                        Some(id@),
                    )
                },
                _ => r is None && final(self).registry == old(self).registry,
            },
    {
        let out = match &session.state {
            SessionState::Authenticated { server_id } => {
                self.registry.release(server_id.as_str(), session.id);
                Some(compose(&self.credentials.servers, &self.registry, now, Some(server_id.as_str()), None))
            },
            _ => None,
        };
        session.state = SessionState::Closed;
        out
    }

    /// The handshake deadline passed: a session that has not authenticated
    /// is closed, without a frame. Returns whether it was.
    pub fn on_auth_deadline(&self, session: &mut Session) -> (r: bool)
        ensures
            r == (old(session).state is Connected),
            r ==> final(session).state is Closed,
            !r ==> final(session).state == old(session).state,
            final(session).id == old(session).id,
    {
        match &session.state {
            SessionState::Connected => {
                session.state = SessionState::Closed;
                true
            },
            _ => false,
        }
    }

    /// The periodic snapshot at `now`; none while no server is known.
    pub fn tick(&self, now: i64) -> (r: Option<DashboardMessage<M>>)
        ensures
            self.credentials.servers@.len() == 0 ==> r is None,
            self.credentials.servers@.len() > 0 ==> (r matches Some(m) && m.msg_type@ == "metrics"@ && m.site_settings is None
                && snapshot_matches(m.servers@, self.credentials.servers@, self.registry, now, None)),
    {
        if self.credentials.servers.len() == 0 {
            None
        } else {
            Some(compose(&self.credentials.servers, &self.registry, now, None, None))
        }
    }

    /// The snapshot a dashboard receives when it attaches, with the site settings.
    pub fn initial_snapshot(&self, now: i64, site_settings: SiteSettings) -> (r: DashboardMessage<M>)
        ensures
            r.msg_type@ == "metrics"@,
            r.site_settings == Some(site_settings),
            snapshot_matches(r.servers@, self.credentials.servers@, self.registry, now, None),
    {
        compose(&self.credentials.servers, &self.registry, now, None, Some(site_settings))
    }

    /// Forgets the server `id`: its credential and its latest sample.
    pub fn delete_server(&mut self, id: &str)
        requires
            old(self).wf(),
        ensures
            final(self).wf(),
            final(self).credentials.servers@ == crate::credentials::without_id(old(self).credentials.servers@, id@),
            final(self).registry.entry(id@) is None,
            forall|other: Seq<char>| other != id@ ==> #[trigger] final(self).registry.entry(other) == old(self).registry.entry(other),
            final(self).registry.connections@ == old(self).registry.connections@,
            final(self).store == old(self).store,
    {
        self.credentials.delete(id);
        self.registry.remove_entry(id);
    }

    /// Asks the agent of `server_id` to update itself: the command frame goes
    /// into its session's inbox, unless it is not connected or the inbox is
    /// full.
    pub fn update_agent(&mut self, server_id: &str, req: UpdateAgentRequest) -> (r: UpdateAgentResponse)
        requires
            old(self).wf(),
        ensures
            final(self).wf(),
            final(self).credentials == old(self).credentials,
            final(self).store == old(self).store,
            final(self).registry.sessions() == old(self).registry.sessions(),
            final(self).registry.entries@ == old(self).registry.entries@,
            ({
                let connected = old(self).registry.sessions().contains_key(server_id@);
                let inbox = old(self).registry.inbox(server_id@);
                &&& !connected ==> !r.success && r.message@ == update_message(Enqueue::NotConnected)
                    && *final(self) == *old(self)
                &&& connected && inbox.len() >= INBOX_CAPACITY ==> !r.success && r.message@ == update_message(
                    Enqueue::InboxFull,
                ) && *final(self) == *old(self)
                &&& connected && inbox.len() < INBOX_CAPACITY ==> {
                    &&& r.success
                    &&& r.message@ == update_message(Enqueue::Queued)
                    &&& final(self).registry.inbox(server_id@).len() == inbox.len() + 1
                    &&& final(self).registry.inbox(server_id@).drop_last() == inbox
                    &&& final(self).registry.inbox(server_id@).last()@ == command_frame_of(quoted_url(req.download_url))
                }
                &&& forall|id: Seq<char>| id != server_id@ && old(self).registry.sessions().contains_key(id)
                    ==> #[trigger] final(self).registry.inbox(id) == old(self).registry.inbox(id)
            }),
    {
        if self.registry.lookup_sink(server_id).is_none() {
            return update_response(Enqueue::NotConnected);
        }
        let frame = match &req.download_url {
            Some(u) => command_frame(Some(u.as_str())),
            None => command_frame(None),
        };
        let e = self.registry.enqueue(server_id, frame);
        proof {
            if old(self).registry.sessions().contains_key(server_id@) && old(self).registry.inbox(server_id@).len() < INBOX_CAPACITY {
                let n = self.registry.inbox(server_id@);
                assert(n == old(self).registry.inbox(server_id@).push(n.last()));
                assert(n.drop_last() =~= old(self).registry.inbox(server_id@));
            }
        }
        update_response(e)
    }
}

} // verus!
