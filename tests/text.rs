use vstats::agent::{
    action_for, auth_accepted, network_totals, next_reconnect_delay, AgentAction, NetworkInterface, ServerResponse,
};
use vstats::api::{bearer_token, version_of_tag, InstallCommand, VersionInfo};
use vstats::config::{
    default_interval, default_jwt_secret, generate_random_string, get_config_path, get_db_path, get_jwt_secret,
    init_jwt_secret, AgentConfig, JwtSecret,
};
use vstats::credentials::{AddServerRequest, AgentRegisterRequest, CredentialStore, UpdateServerRequest, tokens_match};
use vstats::netspeed::{counter_speed, NetworkBaseline};
use vstats::text::{chars_of, replace_chars, string_of};

fn agent_config(url: &str) -> AgentConfig {
    AgentConfig {
        dashboard_url: url.to_string(),
        server_id: "srv-1".to_string(),
        agent_token: "t".to_string(),
        server_name: "box".to_string(),
        location: String::new(),
        provider: String::new(),
        interval_secs: 1,
    }
}

#[test]
fn ws_url_from_dashboard_url() {
    assert_eq!(agent_config("http://dash:3001/").ws_url(), "ws://dash:3001/ws/agent");
    assert_eq!(agent_config("https://dash.example.com").ws_url(), "wss://dash.example.com/ws/agent");
    assert_eq!(agent_config("dash//").ws_url(), "dash/ws/agent");
}

#[test]
fn update_url_defaults_to_dashboard_binary() {
    let c = agent_config("https://dash/");
    assert_eq!(c.update_url(None), "https://dash/releases/vstats-agent");
    assert_eq!(c.update_url(Some("http://mirror/a")), "http://mirror/a");
}

#[test]
fn replace_scans_without_overlap() {
    let r = replace_chars(&chars_of("aaa"), &chars_of("aa"), &chars_of("b"));
    assert_eq!(string_of(&r), "ba");
}

#[test]
fn paths_beside_executable() {
    assert_eq!(get_config_path("/opt/vstats"), "/opt/vstats/vstats-config.json");
    assert_eq!(get_db_path("/opt/vstats/"), "/opt/vstats/vstats.db");
    assert_eq!(get_db_path(""), "vstats.db");
}

#[test]
fn jwt_secret_first_value_stays() {
    let mut slot = JwtSecret::new();
    assert_eq!(get_jwt_secret(&slot), "fallback-secret");
    init_jwt_secret(&mut slot, "one".to_string());
    init_jwt_secret(&mut slot, "two".to_string());
    assert_eq!(get_jwt_secret(&slot), "one");
}

#[test]
fn random_strings_use_the_charset() {
    let charset = "ABCDEFGHJKLMNPQRSTUVWXYZabcdefghjkmnpqrstuvwxyz23456789";
    let s = generate_random_string(200);
    assert_eq!(s.chars().count(), 200);
    assert!(s.chars().all(|c| charset.contains(c)));
    assert_ne!(generate_random_string(32), generate_random_string(32));
    assert_eq!(default_jwt_secret().len(), 64);
    assert_eq!(default_interval(), 1);
}

#[test]
fn credentials_lifecycle() {
    let mut store = CredentialStore::new();
    let added = store
        .add_server(AddServerRequest {
            name: "a".to_string(),
            url: String::new(),
            location: "x".to_string(),
            provider: String::new(),
            tag: "t".to_string(),
        })
        .expect("fresh id");
    assert_eq!(added.id.len(), 36);
    assert_eq!(added.token.len(), 36);
    assert_ne!(added.id, added.token);
    assert!(store.verify(&added.id, &added.token));
    assert!(!store.verify(&added.id, "nope"));
    let reg = store
        .register_agent(AgentRegisterRequest { name: "b".to_string(), location: String::new(), provider: String::new() })
        .expect("fresh id");
    assert_eq!(store.servers.len(), 2);
    assert!(store.verify(&reg.id, &reg.token));
    let updated = store
        .update(&added.id, UpdateServerRequest { name: Some("renamed".to_string()), location: None, provider: None, tag: None })
        .unwrap();
    assert_eq!(updated.name, "renamed");
    assert_eq!(updated.location, "x");
    assert!(store.update("missing", UpdateServerRequest { name: None, location: None, provider: None, tag: None }).is_none());
    store.delete(&added.id);
    assert_eq!(store.servers.len(), 1);
    assert!(store.find_by_id(&added.id).is_none());
    assert!(store.find_by_id(&reg.id).is_some());
}

#[test]
fn token_comparison() {
    assert!(tokens_match("abc", "abc"));
    assert!(!tokens_match("abc", "abd"));
    assert!(!tokens_match("abc", "abcd"));
}

#[test]
fn counter_speed_handles_reset() {
    assert_eq!(counter_speed(1000, 3000, 2000), 1000);
    assert_eq!(counter_speed(3000, 1000, 2000), 0);
    assert_eq!(counter_speed(0, u64::MAX, 1), u64::MAX);
    let mut b = NetworkBaseline::new(100, 100, 0);
    assert_eq!(b.advance(200, 300, 50), (0, 0));
    assert_eq!(b.last_ms, 0);
    assert_eq!(b.advance(1100, 50, 1000), (1000, 0));
    assert_eq!(b.last_rx, 1100);
}

#[test]
fn bearer_and_versions() {
    assert_eq!(bearer_token("Bearer abc").as_deref(), Some("abc"));
    assert_eq!(bearer_token("Basic abc"), None);
    assert_eq!(version_of_tag("v1.2.3"), "1.2.3");
    assert!(VersionInfo::new("1.0.0".to_string(), Some("1.1.0".to_string())).update_available);
    assert!(!VersionInfo::new("1.0.0".to_string(), Some("1.0.0".to_string())).update_available);
    assert!(!VersionInfo::new("1.0.0".to_string(), None).update_available);
}

#[test]
fn install_command_scheme_follows_host() {
    let c = InstallCommand::for_host("localhost:3001", "tok");
    assert_eq!(c.script_url, "http://localhost:3001/agent.sh");
    assert_eq!(
        c.command,
        r#"curl -fsSL http://localhost:3001/agent.sh | sudo bash -s -- --server http://localhost:3001 --token "tok" --name "$(hostname)""#
    );
    assert_eq!(InstallCommand::for_host("dash.io", "t").script_url, "https://dash.io/agent.sh");
}

#[test]
fn agent_reads_hub_frames() {
    let resp = |t: &str, status: Option<&str>, cmd: Option<&str>| ServerResponse {
        msg_type: t.to_string(),
        status: status.map(|s| s.to_string()),
        message: None,
        command: cmd.map(|s| s.to_string()),
        download_url: None,
    };
    assert!(auth_accepted(&resp("auth", Some("ok"), None)));
    assert!(!auth_accepted(&resp("auth", Some("error"), None)));
    assert!(matches!(action_for(resp("command", None, Some("update"))), AgentAction::Update { download_url: None }));
    assert!(matches!(action_for(resp("command", None, Some("reboot"))), AgentAction::UnknownCommand));
    assert!(matches!(action_for(resp("error", None, None)), AgentAction::ReportError));
    assert!(matches!(action_for(resp("metrics", None, None)), AgentAction::Ignore));
    assert_eq!(next_reconnect_delay(5), 10);
    assert_eq!(next_reconnect_delay(40), 60);
}

#[test]
fn network_totals_saturate() {
    let iface = |rx: u64, tx: u64| NetworkInterface { name: "e".to_string(), rx_bytes: rx, tx_bytes: tx, rx_packets: 0, tx_packets: 0 };
    assert_eq!(network_totals(&vec![iface(1, 2), iface(3, 4)]), (4, 6));
    assert_eq!(network_totals(&vec![iface(u64::MAX, 0), iface(1, 0)]), (u64::MAX, 0));
}

#[test]
fn service_unit_runs_the_agent() {
    let unit = vstats::agent::service_unit("/usr/bin/vstats", "/etc/vstats-agent/vstats-agent.json");
    assert!(unit.starts_with("[Unit]\nDescription=vStats Monitoring Agent\n"));
    assert!(unit.contains("\nExecStart=/usr/bin/vstats agent run --config /etc/vstats-agent/vstats-agent.json\n"));
    assert!(unit.ends_with("[Install]\nWantedBy=multi-user.target\n"));
}
