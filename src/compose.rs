use vstd::prelude::*;

use crate::config::{RemoteServer, SiteSettings};
use crate::registry::{AgentEntry, Registry};
use crate::text::{chars_of, string_of};

verus! {

/// An agent counts as online while its latest sample is younger than this.
pub const ONLINE_WINDOW_SECS: i64 = 30;

/// The state of one server in a snapshot.
pub struct ServerMetricsUpdate<M> {
    pub server_id: String,
    pub server_name: String,
    pub location: String,
    pub provider: String,
    pub tag: String,
    pub version: String,
    pub ip: String,
    pub online: bool,
    pub metrics: Option<M>,
}

/// A snapshot of every known server, as sent to dashboards.
pub struct DashboardMessage<M> {
    pub msg_type: String,
    pub servers: Vec<ServerMetricsUpdate<M>>,
    pub site_settings: Option<SiteSettings>,
}

pub open spec fn online_at(now: i64, last_updated: i64) -> bool {
    now - last_updated < ONLINE_WINDOW_SECS
}

/// Whether a sample received at `last_updated` is recent at `now`.
pub fn is_online(now: i64, last_updated: i64) -> (r: bool)
    ensures
        r == online_at(now, last_updated),
{
    (now as i128) - (last_updated as i128) < ONLINE_WINDOW_SECS as i128
}

/// The version shown for a server: the one its latest sample reported, else
/// the recorded one.
pub open spec fn shown_version<M>(s: RemoteServer, e: Option<AgentEntry<M>>) -> Seq<char> {
    match e {
        Some(en) => match en.version {
            Some(v) => v@,
            None => s.version@,
        },
        None => s.version@,
    }
}

/// `u` describes server `s` with registry entry `e` at `now`; the server
/// `leaving`, if any, is shown offline.
pub open spec fn update_matches<M: Clone>(
    u: ServerMetricsUpdate<M>,
    s: RemoteServer,
    e: Option<AgentEntry<M>>,
    now: i64,
    leaving: Option<Seq<char>>,
) -> bool {
    &&& u.server_id@ == s.id@
    &&& u.server_name@ == s.name@
    &&& u.location@ == s.location@
    &&& u.provider@ == s.provider@
    &&& u.tag@ == s.tag@
    &&& u.ip@ == s.ip@
    &&& u.version@ == shown_version(s, e)
    &&& u.online == (e is Some && leaving != Some(s.id@) && online_at(now, e->0.last_updated))
    &&& e is None ==> u.metrics is None
    &&& e is Some ==> u.metrics is Some && cloned::<M>(e->0.metrics, u.metrics->0)
}

pub open spec fn snapshot_matches<M: Clone>(
    r: Seq<ServerMetricsUpdate<M>>,
    servers: Seq<RemoteServer>,
    registry: Registry<M>,
    now: i64,
    leaving: Option<Seq<char>>,
) -> bool {
    &&& r.len() == servers.len()
    &&& forall|i: int|
        0 <= i < servers.len() ==> update_matches(#[trigger] r[i], servers[i], registry.entry(servers[i].id@), now, leaving)
}

fn copy_text(s: &String) -> (r: String)
    ensures
        r@ == s@,
{
    s.clone()
}

/// One entry per server, in the order of `servers`, joined with the
/// registry at `now`; `online` is computed here from that same `now`.
pub fn compose_servers<M: Clone>(
    servers: &Vec<RemoteServer>,
    registry: &Registry<M>,
    now: i64,
    leaving: Option<&str>,
) -> (r: Vec<ServerMetricsUpdate<M>>)
    ensures
        snapshot_matches(
            r@,
            servers@,
            *registry,
            now,
            match leaving {
                Some(l) => Some(l@),
                None => None,
            },
        ),
{
    let ghost lv: Option<Seq<char>> = match leaving {
        Some(l) => Some(l@),
        None => None,
    };
    let mut out: Vec<ServerMetricsUpdate<M>> = Vec::new();
    let mut i: usize = 0;
    while i < servers.len()
        invariant
            i <= servers@.len(),
            out@.len() == i,
            lv == match leaving {
                Some(l) => Some(l@),
                None => None::<Seq<char>>,
            },
            forall|k: int|
                0 <= k < i ==> update_matches(#[trigger] out@[k], servers@[k], registry.entry(servers@[k].id@), now, lv),
        decreases servers@.len() - i,
    {
        let s = &servers[i];
        let is_leaving = match leaving {
            Some(l) => crate::text::same_text(s.id.as_str(), l),
            None => false,
        };
        let (version, online, metrics) = match registry.entry_position(s.id.as_str()) {
            Some(k) => {
                let e = &registry.entries[k];
                let version = match &e.version {
                    Some(v) => copy_text(v),
                    None => copy_text(&s.version),
                };
                let online = !is_leaving && is_online(now, e.last_updated);
                (version, online, Some(e.metrics.clone()))
            },
            None => (copy_text(&s.version), false, None),
        };
        let u = ServerMetricsUpdate {
            server_id: copy_text(&s.id),
            server_name: copy_text(&s.name),
            location: copy_text(&s.location),
            provider: copy_text(&s.provider),
            tag: copy_text(&s.tag),
            version: version,
            ip: copy_text(&s.ip),
            online: online,
            metrics: metrics,
        };
        out.push(u);
        i = i + 1;
    }
    out
}

/// A snapshot message of the servers joined with the registry at `now`.
pub fn compose<M: Clone>(
    servers: &Vec<RemoteServer>,
    registry: &Registry<M>,
    now: i64,
    leaving: Option<&str>,
    site_settings: Option<SiteSettings>,
) -> (r: DashboardMessage<M>)
    ensures
        r.msg_type@ == "metrics"@,
        r.site_settings == site_settings,
        snapshot_matches(
            r.servers@,
            servers@,
            *registry,
            now,
            match leaving {
                Some(l) => Some(l@),
                None => None,
            },
        ),
{
    DashboardMessage {
        msg_type: string_of(&chars_of("metrics")),
        servers: compose_servers(servers, registry, now, leaving),
        site_settings: site_settings,
    }
}

} // verus!
