use vstd::prelude::*;

use crate::text::{append_chars, chars_of, has_prefix, starts_with, string_of, strip_prefix, trim_start, trim_start_chars};

verus! {

/// The claims of an administrator's session token.
pub struct Claims {
    pub sub: String,
    pub exp: i64,
}

pub struct LoginRequest {
    pub password: String,
}

pub struct ChangePasswordRequest {
    pub current_password: String,
    pub new_password: String,
}

/// The shell command that installs an agent, and the script it fetches.
pub struct InstallCommand {
    pub command: String,
    pub script_url: String,
}

pub struct ServerVersionInfo {
    pub version: String,
}

/// The running version against the latest release, if known.
pub struct VersionInfo {
    pub current: String,
    pub latest: Option<String>,
    pub update_available: bool,
}

/// The token of an `Authorization` header value of the bearer scheme.
pub fn bearer_token(header: &str) -> (r: Option<String>)
    ensures
        starts_with(header@, "Bearer "@) ==> (r matches Some(t) && t@ == header@.skip(7)),
        !starts_with(header@, "Bearer "@) ==> r is None,
{
    proof {
        reveal_strlit("Bearer ");
    }
    strip_prefix(header, "Bearer ")
}

/// A release tag without its leading `v`s.
pub fn version_of_tag(tag: &str) -> (r: String)
    ensures
        r@ == trim_start(tag@, 'v'),
{
    string_of(&trim_start_chars(&chars_of(tag), 'v'))
}

impl VersionInfo {
    /// An update is available when the latest release is known and differs
    /// from the running version.
    pub fn new(current: String, latest: Option<String>) -> (r: VersionInfo)
        ensures
            r.current == current,
            r.latest == latest,
            r.update_available == (latest matches Some(l) && l@ != current@),
    {
        let update_available = match &latest {
            Some(l) => !crate::text::same_text(l.as_str(), current.as_str()),
            None => false,
        };
        VersionInfo { current: current, latest: latest, update_available: update_available }
    }
}

/// The dashboard's base URL as seen through `host`: plain HTTP for local
/// hosts, HTTPS otherwise.
pub open spec fn base_url_of(host: Seq<char>) -> Seq<char> {
    if starts_with(host, "localhost"@) || starts_with(host, "127."@) {
        "http://"@ + host
    } else {
        "https://"@ + host
    }
}

pub open spec fn install_command_of(base: Seq<char>, token: Seq<char>) -> Seq<char> {
    "curl -fsSL "@ + base + "/agent.sh | sudo bash -s -- --server "@ + base + " --token \""@ + token
        + "\" --name \"$(hostname)\""@
}

impl InstallCommand {
    /// The install command for an agent of the dashboard at `host`, which
    /// authenticates with `token`.
    pub fn for_host(host: &str, token: &str) -> (r: InstallCommand)
        ensures
            r.command@ == install_command_of(base_url_of(host@), token@),
            r.script_url@ == base_url_of(host@) + "/agent.sh"@,
    {
        let local = has_prefix(host, "localhost") || has_prefix(host, "127.");
        let mut base = if local {
            chars_of("http://")
        } else {
            chars_of("https://")
        };
        append_chars(&mut base, &chars_of(host));
        let mut cmd = chars_of("curl -fsSL ");
        append_chars(&mut cmd, &base);
        append_chars(&mut cmd, &chars_of("/agent.sh | sudo bash -s -- --server "));
        append_chars(&mut cmd, &base);
        append_chars(&mut cmd, &chars_of(" --token \""));
        append_chars(&mut cmd, &chars_of(token));
        append_chars(&mut cmd, &chars_of("\" --name \"$(hostname)\""));
        let mut script = base;
        append_chars(&mut script, &chars_of("/agent.sh"));
        InstallCommand { command: string_of(&cmd), script_url: string_of(&script) }
    }
}

} // verus!
