use vstd::prelude::*;

use crate::config::AgentConfig;
use crate::text::{append_chars, chars_of, same_text, string_of};

verus! {

/// First wait before reconnecting, in seconds.
pub const INITIAL_RECONNECT_SECS: u64 = 5;
/// Longest wait before reconnecting, in seconds.
pub const MAX_RECONNECT_SECS: u64 = 60;

pub struct OsInfo {
    pub name: String,
    pub version: String,
    pub kernel: String,
    pub arch: String,
}

/// Counters of one network interface.
pub struct NetworkInterface {
    pub name: String,
    pub rx_bytes: u64,
    pub tx_bytes: u64,
    pub rx_packets: u64,
    pub tx_packets: u64,
}

pub struct NetworkMetrics {
    pub interfaces: Vec<NetworkInterface>,
    pub total_rx: u64,
    pub total_tx: u64,
    pub rx_speed: u64,
    pub tx_speed: u64,
}

/// The agent's authentication frame.
pub struct AuthMessage {
    pub msg_type: String,
    pub server_id: String,
    pub token: String,
}

/// A frame from the hub, as the agent reads it.
pub struct ServerResponse {
    pub msg_type: String,
    pub status: Option<String>,
    pub message: Option<String>,
    pub command: Option<String>,
    pub download_url: Option<String>,
}

pub struct RegisterRequest {
    pub name: String,
    pub location: String,
    pub provider: String,
}

pub struct RegisterResponse {
    pub id: String,
    pub token: String,
}

/// What the agent does with a frame from the hub.
pub enum AgentAction {
    Ignore,
    ReportError,
    Update { download_url: Option<String> },
    UnknownCommand,
}

pub open spec fn sum_saturating(s: Seq<NetworkInterface>, rx: bool) -> u64
    decreases s.len(),
{
    if s.len() == 0 {
        0
    } else {
        let prev = sum_saturating(s.drop_last(), rx) as int;
        let v = if rx { s.last().rx_bytes as int } else { s.last().tx_bytes as int };
        if prev + v > u64::MAX { u64::MAX } else { (prev + v) as u64 }
    }
}

/// Received and transmitted byte totals over all interfaces, each saturating
/// at `u64::MAX`.
pub fn network_totals(interfaces: &Vec<NetworkInterface>) -> (r: (u64, u64))
    ensures
        r.0 == sum_saturating(interfaces@, true),
        r.1 == sum_saturating(interfaces@, false),
{
    let mut rx: u64 = 0;
    let mut tx: u64 = 0;
    let mut i: usize = 0;
    while i < interfaces.len()
        invariant
            i <= interfaces@.len(),
            rx == sum_saturating(interfaces@.take(i as int), true),
            tx == sum_saturating(interfaces@.take(i as int), false),
        decreases interfaces@.len() - i,
    {
        assert(interfaces@.take(i as int + 1).drop_last() == interfaces@.take(i as int));
        rx = rx.saturating_add(interfaces[i].rx_bytes);
        tx = tx.saturating_add(interfaces[i].tx_bytes);
        i = i + 1;
    }
    assert(interfaces@.take(interfaces@.len() as int) == interfaces@);
    (rx, tx)
}

/// The wait before the next reconnection attempt: double the last one, at
/// most `MAX_RECONNECT_SECS`.
pub fn next_reconnect_delay(delay_secs: u64) -> (r: u64)
    ensures
        r == if 2 * delay_secs > MAX_RECONNECT_SECS { MAX_RECONNECT_SECS as int } else { 2 * delay_secs },
{
    if delay_secs > MAX_RECONNECT_SECS / 2 {
        MAX_RECONNECT_SECS
    } else {
        delay_secs * 2
    }
}

/// The authentication frame for the agent's credential.
pub fn auth_message(config: &AgentConfig) -> (r: AuthMessage)
    ensures
        r.msg_type@ == "auth"@,
        r.server_id == config.server_id,
        r.token == config.agent_token,
{
    AuthMessage {
        msg_type: string_of(&chars_of("auth")),
        server_id: config.server_id.clone(),
        token: config.agent_token.clone(),
    }
}

/// Whether the hub accepted the agent's credential.
pub fn auth_accepted(response: &ServerResponse) -> (r: bool)
    ensures
        r == (response.status matches Some(s) && s@ == "ok"@),
{
    match &response.status {
        Some(s) => same_text(s.as_str(), "ok"),
        None => false,
    }
}

pub open spec fn action_spec(r: ServerResponse) -> AgentAction {
    if r.msg_type@ == "error"@ {
        AgentAction::ReportError
    } else if r.msg_type@ == "command"@ {
        match r.command {
            Some(c) => if c@ == "update"@ {
                AgentAction::Update { download_url: r.download_url }
            } else {
                AgentAction::UnknownCommand
            },
            None => AgentAction::Ignore,
        }
    } else {
        AgentAction::Ignore
    }
}

pub open spec fn unit_head() -> Seq<char> {
    "[Unit]\nDescription=vStats Monitoring Agent\nAfter=network-online.target\nWants=network-online.target\n\n[Service]\nType=simple\nUser=root\nExecStart="@
}

pub open spec fn unit_tail() -> Seq<char> {
    "\nRestart=always\nRestartSec=10\nEnvironment=RUST_LOG=info\n\n[Install]\nWantedBy=multi-user.target\n"@
}

/// The systemd unit that runs the agent of executable `exe` with the
/// configuration file `config_path`.
pub fn service_unit(exe: &str, config_path: &str) -> (r: String)
    ensures
        r@ == unit_head() + exe@ + " agent run --config "@ + config_path@ + unit_tail(),
{
    let mut v = chars_of(
        "[Unit]\nDescription=vStats Monitoring Agent\nAfter=network-online.target\nWants=network-online.target\n\n[Service]\nType=simple\nUser=root\nExecStart=",
    );
    append_chars(&mut v, &chars_of(exe));
    append_chars(&mut v, &chars_of(" agent run --config "));
    append_chars(&mut v, &chars_of(config_path));
    append_chars(
        &mut v,
        &chars_of("\nRestart=always\nRestartSec=10\nEnvironment=RUST_LOG=info\n\n[Install]\nWantedBy=multi-user.target\n"),
    );
    string_of(&v)
}

/// What to do with a frame from the hub: report an error, run an update
/// command, or ignore it.
pub fn action_for(response: ServerResponse) -> (r: AgentAction)
    ensures
        r == action_spec(response),
{
    if same_text(response.msg_type.as_str(), "error") {
        AgentAction::ReportError
    } else if same_text(response.msg_type.as_str(), "command") {
        match &response.command {
            Some(c) => if same_text(c.as_str(), "update") {
                AgentAction::Update { download_url: response.download_url }
            } else {
                AgentAction::UnknownCommand
            },
            None => AgentAction::Ignore,
        }
    } else {
        AgentAction::Ignore
    }
}

} // verus!
