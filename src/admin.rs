use vstd::prelude::*;

use crate::config::{
    default_jwt_secret, generate_random_string, AppConfig, LocalNodeConfig, ProbeSettings, SiteSettings,
};
use crate::text::{has_prefix, starts_with};

verus! {

/// Work factor of stored password hashes.
pub const HASH_COST: u32 = 12;

/// Whether `bcrypt::verify` accepts `password` against `hash`; a hash it
/// cannot read counts as a refusal.
pub uninterp spec fn bcrypt_accepts(password: Seq<char>, hash: Seq<char>) -> bool;

/// Relies on `bcrypt::hash`: on success a string of the `$2b$` format,
/// which `bcrypt::verify` accepts for the same password (it hashes again
/// with the stored salt and cost); the salt is random.
#[verifier::external_body]
fn hash_password(password: &str) -> (r: Option<String>)
    ensures
        r matches Some(h) ==> starts_with(h@, "$2b$"@) && bcrypt_accepts(password@, h@),
{
    bcrypt::hash(password, HASH_COST).ok()
}

/// Relies on `bcrypt::verify`, whose answer depends on its arguments alone;
/// an error is taken as a refusal.
#[verifier::external_body]
pub(crate) fn password_accepted(password: &str, hash: &str) -> (r: bool)
    ensures
        r == bcrypt_accepts(password@, hash@),
{
    bcrypt::verify(password, hash).unwrap_or(false)
}

/// Whether `h` looks like a bcrypt hash.
pub open spec fn is_bcrypt_hash(h: Seq<char>) -> bool {
    starts_with(h, "$2"@)
}

/// The hash a login is checked against: the one just read from the
/// configuration file if it looks like a bcrypt hash, else the one in memory.
pub open spec fn effective_hash(file_hash: Option<Seq<char>>, memory_hash: Seq<char>) -> Seq<char> {
    match file_hash {
        Some(h) => if is_bcrypt_hash(h) { h } else { memory_hash },
        None => memory_hash,
    }
}

pub fn effective_password_hash(file_hash: Option<String>, memory_hash: &String) -> (r: String)
    ensures
        r@ == effective_hash(
            match file_hash {
                Some(h) => Some(h@),
                None => None,
            },
            memory_hash@,
        ),
{
    match file_hash {
        Some(h) => if has_prefix(h.as_str(), "$2") {
            h
        } else {
            memory_hash.clone()
        },
        None => memory_hash.clone(),
    }
}

/// Whether `password` opens the administrator's account.
pub fn login_allowed(file_hash: Option<String>, memory_hash: &String, password: &str) -> (r: bool)
    ensures
        r == bcrypt_accepts(
            password@,
            effective_hash(
                match file_hash {
                    Some(h) => Some(h@),
                    None => None,
                },
                memory_hash@,
            ),
        ),
{
    let hash = effective_password_hash(file_hash, memory_hash);
    password_accepted(password, hash.as_str())
}

/// Outcome of a password change.
pub enum PasswordChange {
    Changed,
    WrongPassword,
    HashFailed,
}

/// What startup repaired in a loaded configuration.
pub struct ConfigRepair {
    pub new_password: Option<String>,
    pub changed: bool,
}

impl AppConfig {
    /// A fresh configuration with the given administrator password; `None`
    /// if hashing failed.
    pub fn with_password(password: &str) -> (r: Option<AppConfig>)
        ensures
            r matches Some(c) ==> {
                &&& starts_with(c.admin_password_hash@, "$2b$"@)
                &&& bcrypt_accepts(password@, c.admin_password_hash@)
                &&& c.jwt_secret@.len() == 64
                &&& c.servers@.len() == 0
                &&& c.site_settings.site_name@ == "vStats Dashboard"@
                &&& c.site_settings.site_description@ == "Real-time Server Monitoring"@
                &&& c.probe_settings.ping_targets@.len() == 0
            },
    {
        match hash_password(password) {
            Some(hash) => Some(
                AppConfig {
                    admin_password_hash: hash,
                    jwt_secret: default_jwt_secret(),
                    servers: Vec::new(),
                    site_settings: SiteSettings::initial(),
                    local_node: LocalNodeConfig::default(),
                    probe_settings: ProbeSettings { ping_targets: Vec::new() },
                },
            ),
            None => None,
        }
    }

    /// A fresh configuration with a random 16-character password, and that
    /// password; `None` if hashing failed.
    pub fn new_with_random_password() -> (r: Option<(AppConfig, String)>)
        ensures
            r matches Some((c, p)) ==> {
                &&& p@.len() == 16
                &&& starts_with(c.admin_password_hash@, "$2b$"@)
                &&& bcrypt_accepts(p@, c.admin_password_hash@)
                &&& c.jwt_secret@.len() == 64
                &&& c.servers@.len() == 0
            },
    {
        let password = generate_random_string(16);
        match AppConfig::with_password(password.as_str()) {
            Some(c) => Some((c, password)),
            None => None,
        }
    }

    /// Replaces the administrator password by a random 16-character one and
    /// returns it; `None`, with nothing changed, if hashing failed.
    pub fn reset_password(&mut self) -> (r: Option<String>)
        ensures
            r matches Some(p) ==> p@.len() == 16 && starts_with(final(self).admin_password_hash@, "$2b$"@)
                && bcrypt_accepts(p@, final(self).admin_password_hash@),
            r is None ==> *final(self) == *old(self),
            final(self).servers == old(self).servers,
            final(self).jwt_secret == old(self).jwt_secret,
            final(self).site_settings == old(self).site_settings,
            final(self).local_node == old(self).local_node,
            final(self).probe_settings == old(self).probe_settings,
    {
        let password = generate_random_string(16);
        match hash_password(password.as_str()) {
            Some(h) => {
                self.admin_password_hash = h;
                Some(password)
            },
            None => None,
        }
    }

    /// Changes the administrator password if `current` is accepted against
    /// `current_hash`.
    pub fn change_password(&mut self, current_hash: &str, current: &str, new_password: &str) -> (r: PasswordChange)
        ensures
            !bcrypt_accepts(current@, current_hash@) ==> r is WrongPassword && *final(self) == *old(self),
            bcrypt_accepts(current@, current_hash@) ==> !(r is WrongPassword),
            r is Changed ==> starts_with(final(self).admin_password_hash@, "$2b$"@)
                && bcrypt_accepts(new_password@, final(self).admin_password_hash@),
            !(r is Changed) ==> *final(self) == *old(self),
            final(self).servers == old(self).servers,
            final(self).jwt_secret == old(self).jwt_secret,
            final(self).site_settings == old(self).site_settings,
            final(self).local_node == old(self).local_node,
            final(self).probe_settings == old(self).probe_settings,
    {
        if !password_accepted(current, current_hash) {
            return PasswordChange::WrongPassword;
        }
        match hash_password(new_password) {
            Some(h) => {
                self.admin_password_hash = h;
                PasswordChange::Changed
            },
            None => PasswordChange::HashFailed,
        }
    }

    /// Repairs a loaded configuration: a stored hash that is not a bcrypt
    /// hash is replaced by the hash of a new random password, which is
    /// returned, and an empty signing secret by a random one.
    pub fn repair(&mut self) -> (r: ConfigRepair)
        ensures
            final(self).servers == old(self).servers,
            is_bcrypt_hash(old(self).admin_password_hash@) ==> r.new_password is None
                && final(self).admin_password_hash == old(self).admin_password_hash,
            !is_bcrypt_hash(old(self).admin_password_hash@) ==> match r.new_password {
                Some(p) => p@.len() == 16 && starts_with(final(self).admin_password_hash@, "$2b$"@)
                    && bcrypt_accepts(p@, final(self).admin_password_hash@),
                None => final(self).admin_password_hash == old(self).admin_password_hash,
            },
            old(self).jwt_secret@.len() == 0 ==> final(self).jwt_secret@.len() == 64,
            old(self).jwt_secret@.len() > 0 ==> final(self).jwt_secret == old(self).jwt_secret,
            r.changed == (r.new_password is Some || old(self).jwt_secret@.len() == 0),
    {
        let mut new_password: Option<String> = None;
        if !has_prefix(self.admin_password_hash.as_str(), "$2") {
            new_password = self.reset_password();
        }
        let empty_secret = self.jwt_secret.as_str().is_empty();
        if empty_secret {
            self.jwt_secret = default_jwt_secret();
        }
        let changed = new_password.is_some() || empty_secret;
        ConfigRepair { new_password: new_password, changed: changed }
    }
}

} // verus!
