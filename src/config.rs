use vstd::prelude::*;

use crate::text::{append_chars, chars_of, replace_all, replace_chars, string_of, trim_end, trim_end_chars};
use rand::Rng;

verus! {

pub const CONFIG_FILENAME: &'static str = "vstats-config.json";
pub const DB_FILENAME: &'static str = "vstats.db";

/// Relies on `rand::Rng::gen_range` over `0..n` of the thread-local
/// generator: a value below `n`; the range must not be empty.
#[verifier::external_body]
fn random_below(n: usize) -> (r: usize)
    requires
        n > 0,
    ensures
        r < n,
{
    rand::thread_rng().gen_range(0..n)
}

/// Relies on `uuid::Uuid::new_v4` and its `Display`, which writes the
/// hyphenated lower-case form: 36 characters.
#[verifier::external_body]
pub(crate) fn new_uuid() -> (r: String)
    ensures
        r@.len() == 36,
{
    uuid::Uuid::new_v4().to_string()
}

/// The characters random strings are drawn from: letters and digits without
/// the easily confused `I`, `O`, `i`, `l`, `o`, `0` and `1`.
pub open spec fn random_charset() -> Seq<char> {
    "ABCDEFGHJKLMNPQRSTUVWXYZabcdefghjkmnpqrstuvwxyz23456789"@
}

/// A random string of `len` characters of the charset.
pub fn generate_random_string(len: usize) -> (r: String)
    ensures
        r@.len() == len,
        forall|i: int| 0 <= i < len ==> random_charset().contains(#[trigger] r@[i]),
{
    let charset = chars_of("ABCDEFGHJKLMNPQRSTUVWXYZabcdefghjkmnpqrstuvwxyz23456789");
    proof {
        reveal_strlit("ABCDEFGHJKLMNPQRSTUVWXYZabcdefghjkmnpqrstuvwxyz23456789");
    }
    let mut out: Vec<char> = Vec::new();
    let mut i: usize = 0;
    while i < len
        invariant
            i <= len,
            charset@ == random_charset(),
            charset@.len() > 0,
            out@.len() == i,
            forall|k: int| 0 <= k < i ==> random_charset().contains(#[trigger] out@[k]),
        decreases len - i,
    {
        let idx = random_below(charset.len());
        out.push(charset[idx]);
        proof {
            assert(random_charset()[idx as int] == out@[i as int]);
        }
        i = i + 1;
    }
    string_of(&out)
}

/// A fresh secret for signing session tokens.
pub fn default_jwt_secret() -> (r: String)
    ensures
        r@.len() == 64,
{
    generate_random_string(64)
}

/// The place that holds the token-signing secret once it is known.
pub struct JwtSecret {
    pub value: Option<String>,
}

impl JwtSecret {
    pub fn new() -> (r: JwtSecret)
        ensures
            r.value is None,
    {
        JwtSecret { value: None }
    }
}

/// Sets the secret; the first value set stays.
pub fn init_jwt_secret(slot: &mut JwtSecret, secret: String)
    ensures
        old(slot).value is None ==> final(slot).value == Some(secret),
        old(slot).value is Some ==> *final(slot) == *old(slot),
{
    if slot.value.is_none() {
        slot.value = Some(secret);
    }
}

/// The secret, or a fixed fallback where none was set.
pub fn get_jwt_secret(slot: &JwtSecret) -> (r: String)
    ensures
        r@ == match slot.value {
            Some(s) => s@,
            None => "fallback-secret"@,
        },
{
    match &slot.value {
        Some(s) => s.clone(),
        None => string_of(&chars_of("fallback-secret")),
    }
}

/// `dir` joined with the file name `name`, as a path.
pub open spec fn path_join(dir: Seq<char>, name: Seq<char>) -> Seq<char> {
    if dir.len() == 0 {
        name
    } else if dir.last() == '/' {
        dir + name
    } else {
        dir + seq!['/'] + name
    }
}

pub fn join_path(dir: &str, name: &str) -> (r: String)
    ensures
        r@ == path_join(dir@, name@),
{
    let mut v = chars_of(dir);
    let n = chars_of(name);
    if v.len() > 0 && v[v.len() - 1] != '/' {
        v.push('/');
    }
    append_chars(&mut v, &n);
    string_of(&v)
}

/// The config file beside the executable in `exe_dir`.
pub fn get_config_path(exe_dir: &str) -> (r: String)
    ensures
        r@ == path_join(exe_dir@, CONFIG_FILENAME@),
{
    join_path(exe_dir, CONFIG_FILENAME)
}

/// The database file beside the executable in `exe_dir`.
pub fn get_db_path(exe_dir: &str) -> (r: String)
    ensures
        r@ == path_join(exe_dir@, DB_FILENAME@),
{
    join_path(exe_dir, DB_FILENAME)
}

/// The agent's configuration.
pub struct AgentConfig {
    pub dashboard_url: String,
    pub server_id: String,
    pub agent_token: String,
    pub server_name: String,
    pub location: String,
    pub provider: String,
    pub interval_secs: u64,
}

/// Seconds between two samples unless configured otherwise.
pub fn default_interval() -> (r: u64)
    ensures
        r == 1,
{
    1
}

/// The agent channel's URL for a dashboard URL: the scheme becomes `ws` or
/// `wss`, trailing slashes go, and `/ws/agent` is appended.
pub open spec fn ws_url_of(dashboard_url: Seq<char>) -> Seq<char> {
    trim_end(
        replace_all(replace_all(dashboard_url, "http://"@, "ws://"@), "https://"@, "wss://"@),
        '/',
    ) + "/ws/agent"@
}

/// Where an update is downloaded from: the given URL, or the dashboard's
/// agent binary.
pub open spec fn update_url_of(dashboard_url: Seq<char>, download_url: Option<Seq<char>>) -> Seq<char> {
    match download_url {
        Some(u) => u,
        None => trim_end(dashboard_url, '/') + "/releases/vstats-agent"@,
    }
}

impl AgentConfig {
    pub fn ws_url(&self) -> (r: String)
        ensures
            r@ == ws_url_of(self.dashboard_url@),
    {
        proof {
            reveal_strlit("http://");
            reveal_strlit("https://");
        }
        let v = chars_of(self.dashboard_url.as_str());
        let v = replace_chars(&v, &chars_of("http://"), &chars_of("ws://"));
        let mut v = replace_chars(&v, &chars_of("https://"), &chars_of("wss://"));
        trim_end_chars(&mut v, '/');
        append_chars(&mut v, &chars_of("/ws/agent"));
        string_of(&v)
    }

    pub fn update_url(&self, download_url: Option<&str>) -> (r: String)
        ensures
            r@ == update_url_of(
                self.dashboard_url@,
                match download_url {
                    Some(u) => Some(u@),
                    None => None,
                },
            ),
    {
        match download_url {
            Some(u) => string_of(&chars_of(u)),
            None => {
                let mut v = chars_of(self.dashboard_url.as_str());
                trim_end_chars(&mut v, '/');
                append_chars(&mut v, &chars_of("/releases/vstats-agent"));
                string_of(&v)
            },
        }
    }
}

/// A link shown on the dashboard.
pub struct SocialLink {
    pub platform: String,
    pub url: String,
    pub label: String,
}

pub struct SiteSettings {
    pub site_name: String,
    pub site_description: String,
    pub social_links: Vec<SocialLink>,
}

pub struct LocalNodeConfig {
    pub name: String,
    pub location: String,
    pub provider: String,
    pub tag: String,
}

pub struct PingTargetConfig {
    pub name: String,
    pub host: String,
}

pub struct ProbeSettings {
    pub ping_targets: Vec<PingTargetConfig>,
}

/// A monitored server and its agent's credential.
pub struct RemoteServer {
    pub id: String,
    pub name: String,
    pub url: String,
    pub location: String,
    pub provider: String,
    pub tag: String,
    pub token: String,
    pub version: String,
    pub ip: String,
}

impl RemoteServer {
    pub fn copy(&self) -> (r: RemoteServer)
        ensures
            r == *self,
    {
        RemoteServer {
            id: self.id.clone(),
            name: self.name.clone(),
            url: self.url.clone(),
            location: self.location.clone(),
            provider: self.provider.clone(),
            tag: self.tag.clone(),
            token: self.token.clone(),
            version: self.version.clone(),
            ip: self.ip.clone(),
        }
    }
}

/// The hub's configuration document.
pub struct AppConfig {
    pub admin_password_hash: String,
    pub jwt_secret: String,
    pub servers: Vec<RemoteServer>,
    pub site_settings: SiteSettings,
    pub local_node: LocalNodeConfig,
    pub probe_settings: ProbeSettings,
}

impl Default for LocalNodeConfig {
    fn default() -> (r: LocalNodeConfig)
        ensures
            r.name@.len() == 0,
            r.location@.len() == 0,
            r.provider@.len() == 0,
            r.tag@.len() == 0,
    {
        LocalNodeConfig { name: String::new(), location: String::new(), provider: String::new(), tag: String::new() }
    }
}

impl SiteSettings {
    /// The settings of a fresh installation.
    pub fn initial() -> (r: SiteSettings)
        ensures
            r.site_name@ == "vStats Dashboard"@,
            r.site_description@ == "Real-time Server Monitoring"@,
            r.social_links@.len() == 0,
    {
        SiteSettings {
            site_name: string_of(&chars_of("vStats Dashboard")),
            site_description: string_of(&chars_of("Real-time Server Monitoring")),
            social_links: Vec::new(),
        }
    }
}

} // verus!
