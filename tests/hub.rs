use vstats::config::RemoteServer;
use vstats::credentials::CredentialStore;
use vstats::registry::Registry;
use vstats::session::{AgentCommand, AgentFrame, FrameOutcome, Hub, Sample, Session, SessionState, UpdateAgentRequest};
use vstats::store::{MetricsStore, SampleFigures};
use vstats::compose::is_online;

fn server(id: &str, token: &str) -> RemoteServer {
    RemoteServer {
        id: id.to_string(),
        name: "Server One".to_string(),
        url: String::new(),
        location: "Berlin".to_string(),
        provider: "Acme".to_string(),
        tag: String::new(),
        token: token.to_string(),
        version: String::new(),
        ip: String::new(),
    }
}

fn hub() -> Hub<String> {
    let mut creds = CredentialStore::new();
    assert!(creds.insert(server("srv-1", "t")));
    Hub::new(creds, MetricsStore::new())
}

fn auth(id: &str, token: &str) -> AgentFrame<String> {
    AgentFrame::Auth { server_id: Some(id.to_string()), token: Some(token.to_string()) }
}

fn figures(ts: i64, cpu: u64, memory: u64, disks: Vec<u64>) -> SampleFigures {
    SampleFigures {
        timestamp: ts,
        cpu,
        memory,
        disk_usages: disks,
        total_rx: 1000,
        total_tx: 2000,
        ping_latencies: None,
    }
}

fn metrics_frame(ts: i64) -> AgentFrame<String> {
    AgentFrame::Metrics {
        sample: Some(Sample {
            metrics: "payload".to_string(),
            figures: figures(ts, 1250, 4000, vec![8000]),
            version: Some("1.2.0".to_string()),
            ip_addresses: None,
        }),
    }
}

const NOW: i64 = 1_700_000_000;

#[test]
fn happy_register_and_ingest() {
    let mut hub = hub();
    let mut s = Session::new(1, "10.0.0.5".to_string());
    let out = hub.on_frame(&mut s, auth("srv-1", "t"), NOW);
    assert_eq!(out.reply.as_deref(), Some(r#"{"type":"auth","status":"ok"}"#));
    assert!(!out.close);
    assert!(matches!(s.state, SessionState::Authenticated { .. }));

    let out = hub.on_frame(&mut s, metrics_frame(NOW), NOW);
    assert!(out.reply.is_none());
    let rows = &hub.store.raw.rows;
    assert_eq!(rows.len(), 1);
    assert_eq!(rows[0].server_id, "srv-1");
    assert_eq!(rows[0].cpu, 1250);
    assert_eq!(rows[0].memory, 4000);
    assert_eq!(rows[0].disk, 8000);
    assert_eq!(rows[0].ping, None);
    let snap = out.snapshot.expect("snapshot");
    assert_eq!(snap.msg_type, "metrics");
    assert_eq!(snap.servers.len(), 1);
    assert!(snap.servers[0].online);
    assert_eq!(snap.servers[0].metrics.as_deref(), Some("payload"));
    assert_eq!(snap.servers[0].version, "1.2.0");
    assert_eq!(snap.servers[0].ip, "10.0.0.5");
    assert!(out.config_changed);
    assert_eq!(hub.credentials.servers[0].ip, "10.0.0.5");
    assert_eq!(hub.credentials.servers[0].version, "1.2.0");
}

#[test]
fn bad_token_closes_without_registration() {
    let mut hub = hub();
    let mut s = Session::new(1, "10.0.0.5".to_string());
    let out = hub.on_frame(&mut s, auth("srv-1", "wrong"), NOW);
    let reply = out.reply.expect("reply");
    assert!(reply.contains(r#""status":"error""#));
    assert_eq!(reply, r#"{"type":"auth","status":"error","message":"Invalid token"}"#);
    assert!(out.close);
    assert!(matches!(s.state, SessionState::Closed));
    assert!(hub.registry.connections.is_empty());
    assert!(hub.registry.entries.is_empty());
    assert_eq!(hub.registry.lookup_sink("srv-1"), None);
}

#[test]
fn unknown_server_and_missing_credentials_close() {
    let mut hub = hub();
    let mut s = Session::new(1, "ip".to_string());
    let out = hub.on_frame(&mut s, auth("nope", "t"), NOW);
    assert_eq!(out.reply.as_deref(), Some(r#"{"type":"auth","status":"error","message":"Server not found"}"#));
    assert!(out.close);
    let mut s2 = Session::new(2, "ip".to_string());
    let out = hub.on_frame(&mut s2, AgentFrame::Auth { server_id: Some("srv-1".to_string()), token: None }, NOW);
    assert!(out.close);
    assert!(out.reply.unwrap().contains("Missing credentials"));
}

#[test]
fn disconnect_shows_server_offline() {
    let mut hub = hub();
    let mut s = Session::new(1, "10.0.0.5".to_string());
    hub.on_frame(&mut s, auth("srv-1", "t"), NOW);
    hub.on_frame(&mut s, metrics_frame(NOW), NOW);
    let snap = hub.on_close(&mut s, NOW + 1).expect("snapshot on disconnect");
    assert_eq!(snap.servers.len(), 1);
    assert!(!snap.servers[0].online);
    assert!(matches!(s.state, SessionState::Closed));
    assert_eq!(hub.registry.lookup_sink("srv-1"), None);
}

#[test]
fn metrics_before_auth_are_discarded() {
    let mut hub = hub();
    let mut s = Session::new(1, "ip".to_string());
    let out: FrameOutcome<String> = hub.on_frame(&mut s, metrics_frame(NOW), NOW);
    assert_eq!(out.reply.as_deref(), Some(r#"{"type":"error","message":"Not authenticated"}"#));
    assert!(!out.close);
    assert!(out.snapshot.is_none());
    assert!(hub.store.raw.rows.is_empty());
    assert!(hub.registry.entries.is_empty());
}

#[test]
fn update_command_reaches_connected_agent() {
    let mut hub = hub();
    let mut s = Session::new(7, "ip".to_string());
    hub.on_frame(&mut s, auth("srv-1", "t"), NOW);
    let resp = hub.update_agent("srv-1", UpdateAgentRequest { download_url: None });
    assert!(resp.success);
    assert_eq!(resp.message, "Update command sent to agent");
    let inbox = hub.registry.take_commands("srv-1", 7);
    assert_eq!(inbox, vec![r#"{"type":"command","command":"update","download_url":null}"#.to_string()]);
}

#[test]
fn update_command_with_url_is_json_quoted() {
    let mut hub = hub();
    let mut s = Session::new(7, "ip".to_string());
    hub.on_frame(&mut s, auth("srv-1", "t"), NOW);
    let resp = hub.update_agent("srv-1", UpdateAgentRequest { download_url: Some("http://h/a\"b".to_string()) });
    assert!(resp.success);
    let inbox = hub.registry.take_commands("srv-1", 7);
    assert_eq!(inbox, vec![r#"{"type":"command","command":"update","download_url":"http://h/a\"b"}"#.to_string()]);
}

#[test]
fn update_command_to_absent_agent_fails() {
    let mut hub = hub();
    let resp = hub.update_agent("srv-1", UpdateAgentRequest { download_url: None });
    assert!(!resp.success);
    assert_eq!(resp.message, "Agent is not connected");
}

#[test]
fn full_inbox_rejects_command() {
    let mut hub = hub();
    let mut s = Session::new(7, "ip".to_string());
    hub.on_frame(&mut s, auth("srv-1", "t"), NOW);
    for _ in 0..16 {
        assert!(hub.update_agent("srv-1", UpdateAgentRequest { download_url: None }).success);
    }
    let resp = hub.update_agent("srv-1", UpdateAgentRequest { download_url: None });
    assert!(!resp.success);
    assert_eq!(resp.message, "Failed to send update command");
}

#[test]
fn newer_session_survives_cleanup_of_older() {
    let mut reg: Registry<String> = Registry::new();
    let id = "srv-1".to_string();
    reg.register(&id, 1);
    reg.register(&id, 2);
    reg.release("srv-1", 1);
    assert_eq!(reg.lookup_sink("srv-1"), Some(2));
    reg.release("srv-1", 2);
    assert_eq!(reg.lookup_sink("srv-1"), None);
}

#[test]
fn online_window_is_thirty_seconds() {
    assert!(is_online(NOW, NOW));
    assert!(is_online(NOW + 29, NOW));
    assert!(!is_online(NOW + 30, NOW));
    assert!(!is_online(NOW + 31, NOW));
}

#[test]
fn snapshot_uses_composition_time() {
    let mut hub = hub();
    let mut s = Session::new(1, "ip".to_string());
    hub.on_frame(&mut s, auth("srv-1", "t"), NOW);
    hub.on_frame(&mut s, metrics_frame(NOW), NOW);
    assert!(hub.tick(NOW + 29).unwrap().servers[0].online);
    assert!(!hub.tick(NOW + 30).unwrap().servers[0].online);
}

#[test]
fn tick_is_silent_without_servers() {
    let hub: Hub<String> = Hub::new(CredentialStore::new(), MetricsStore::new());
    assert!(hub.tick(NOW).is_none());
}

#[test]
fn auth_deadline_closes_only_unauthenticated() {
    let mut hub = hub();
    let mut s = Session::new(1, "ip".to_string());
    assert!(hub.on_auth_deadline(&mut s));
    assert!(matches!(s.state, SessionState::Closed));
    let mut s2 = Session::new(2, "ip".to_string());
    hub.on_frame(&mut s2, auth("srv-1", "t"), NOW);
    assert!(!hub.on_auth_deadline(&mut s2));
}

#[test]
fn reported_address_wins_over_peer() {
    let mut hub = hub();
    let mut s = Session::new(1, "10.0.0.5".to_string());
    hub.on_frame(&mut s, auth("srv-1", "t"), NOW);
    let frame = AgentFrame::Metrics {
        sample: Some(Sample {
            metrics: "p".to_string(),
            figures: figures(NOW, 1, 2, vec![]),
            version: None,
            ip_addresses: Some(vec!["203.0.113.9".to_string()]),
        }),
    };
    let out = hub.on_frame(&mut s, frame, NOW);
    assert!(out.config_changed);
    assert_eq!(hub.credentials.servers[0].ip, "203.0.113.9");
    let again = AgentFrame::Metrics {
        sample: Some(Sample {
            metrics: "p".to_string(),
            figures: figures(NOW + 1, 1, 2, vec![]),
            version: None,
            ip_addresses: Some(vec!["203.0.113.9".to_string()]),
        }),
    };
    assert!(!hub.on_frame(&mut s, again, NOW + 1).config_changed);
}

#[test]
fn initial_snapshot_carries_site_settings() {
    let hub = hub();
    let snap = hub.initial_snapshot(NOW, vstats::config::SiteSettings::initial());
    assert_eq!(snap.site_settings.unwrap().site_name, "vStats Dashboard");
    assert_eq!(snap.servers.len(), 1);
    assert!(!snap.servers[0].online);
    assert!(snap.servers[0].metrics.is_none());
}

#[test]
fn deleting_a_server_forgets_its_sample() {
    let mut hub = hub();
    let mut s = Session::new(1, "ip".to_string());
    hub.on_frame(&mut s, auth("srv-1", "t"), NOW);
    hub.on_frame(&mut s, metrics_frame(NOW), NOW);
    hub.delete_server("srv-1");
    assert!(hub.credentials.servers.is_empty());
    assert!(hub.registry.entries.is_empty());
    assert!(hub.tick(NOW).is_none());
}

#[test]
fn agent_command_frame() {
    let cmd = AgentCommand::update(None);
    assert_eq!(cmd.frame(), r#"{"type":"command","command":"update","download_url":null}"#);
    let cmd = AgentCommand::update(Some("http://x/a b".to_string()));
    assert_eq!(cmd.frame(), r#"{"type":"command","command":"update","download_url":"http://x/a b"}"#);
}

#[test]
fn older_session_closing_keeps_newer_registration() {
    let mut hub = hub();
    let mut older = Session::new(1, "ip".to_string());
    let mut newer = Session::new(2, "ip".to_string());
    hub.on_frame(&mut older, auth("srv-1", "t"), NOW);
    hub.on_frame(&mut newer, auth("srv-1", "t"), NOW);
    assert_eq!(hub.registry.lookup_sink("srv-1"), Some(2));
    hub.on_close(&mut older, NOW);
    assert_eq!(hub.registry.lookup_sink("srv-1"), Some(2));
    assert!(hub.update_agent("srv-1", UpdateAgentRequest { download_url: None }).success);
    assert_eq!(hub.registry.take_commands("srv-1", 1).len(), 0);
    assert_eq!(hub.registry.take_commands("srv-1", 2).len(), 1);
}

#[test]
fn command_frame_escapes_control_characters() {
    let f = vstats::session::command_frame(Some("a\\b\n\u{1}\t\"c"));
    assert_eq!(f, r#"{"type":"command","command":"update","download_url":"a\\b\n\u0001\t\"c"}"#);
    assert_eq!(vstats::session::command_frame(None), r#"{"type":"command","command":"update","download_url":null}"#);
}

#[test]
fn liveness_closes_after_two_unanswered_pings() {
    assert!(!vstats::session::liveness_lost(0));
    assert!(!vstats::session::liveness_lost(1));
    assert!(vstats::session::liveness_lost(2));
}

#[test]
fn fresh_session_inbox_is_empty_after_auth() {
    let mut hub = hub();
    let mut s = Session::new(3, "ip".to_string());
    hub.on_frame(&mut s, auth("srv-1", "t"), NOW);
    assert!(hub.registry.take_commands("srv-1", 3).is_empty());
}
