//! The app settings kept in `settings.json`: the watched folder, cloud
//! sharing (Cloudflare R2 / Backblaze B2) and OBS integration, with the
//! normalization applied when the user saves them and the defaults shown
//! when a value is blank.
use vstd::prelude::*;

use crate::text::{
    chars_of, ends_with, starts_with, starts_with_chars, string_of, to_lowercase, trim, trim_seq,
    unicode_lowercase,
};

verus! {

pub fn default_delete_days() -> (d: u32)
    ensures
        d == 15,
{
    15
}

pub fn default_share_provider() -> (s: String)
    ensures
        s@ == "r2"@,
{
    String::from_str("r2")
}

pub fn default_share_region() -> (s: String)
    ensures
        s@ == "auto"@,
{
    String::from_str("auto")
}

pub fn default_obs_integration_mode() -> (s: String)
    ensures
        s@ == "manual"@,
{
    String::from_str("manual")
}

pub fn default_obs_websocket_url() -> (s: String)
    ensures
        s@ == "ws://127.0.0.1:4455"@,
{
    String::from_str("ws://127.0.0.1:4455")
}

/// Cloud sharing settings as stored.
pub struct R2Settings {
    pub enabled: bool,
    pub provider: String,
    pub account_id: String,
    pub endpoint_url: String,
    pub region: String,
    pub access_key_id: String,
    pub secret_access_key: String,
    pub bucket: String,
    pub public_base_url: String,
    pub delete_after_days: u32,
}

/// Cloud sharing settings as shown to the user: the secret is never sent
/// back, only whether one is set.
pub struct R2SettingsResponse {
    pub enabled: bool,
    pub provider: String,
    pub account_id: String,
    pub endpoint_url: String,
    pub region: String,
    pub access_key_id: String,
    pub secret_set: bool,
    pub bucket: String,
    pub public_base_url: String,
    pub delete_after_days: u32,
}

/// Cloud sharing settings as the user saves them; a missing or blank secret
/// keeps the stored one.
pub struct R2SettingsUpdate {
    pub enabled: bool,
    pub provider: String,
    pub account_id: String,
    pub endpoint_url: String,
    pub region: String,
    pub access_key_id: String,
    pub secret_access_key: Option<String>,
    pub bucket: String,
    pub public_base_url: String,
    pub delete_after_days: u32,
}

/// OBS integration settings as stored.
pub struct ObsSettings {
    pub integration_mode: String,
    pub websocket_url: String,
    pub password: String,
    pub auto_launch: bool,
    pub start_replay_on_launch: bool,
}

pub struct ObsSettingsResponse {
    pub integration_mode: String,
    pub websocket_url: String,
    pub password_set: bool,
    pub auto_launch: bool,
    pub start_replay_on_launch: bool,
}

pub struct ObsSettingsUpdate {
    pub integration_mode: String,
    pub websocket_url: String,
    pub password: Option<String>,
    pub auto_launch: bool,
    pub start_replay_on_launch: bool,
}

impl Default for R2Settings {
    /// Sharing settings when `settings.json` has none: everything empty or off.
    fn default() -> (r: Self)
        ensures
            !r.enabled,
            r.provider@.len() == 0,
            r.account_id@.len() == 0,
            r.endpoint_url@.len() == 0,
            r.region@.len() == 0,
            r.access_key_id@.len() == 0,
            r.secret_access_key@.len() == 0,
            r.bucket@.len() == 0,
            r.public_base_url@.len() == 0,
            r.delete_after_days == 0,
    {
        R2Settings {
            enabled: false,
            provider: String::new(),
            account_id: String::new(),
            endpoint_url: String::new(),
            region: String::new(),
            access_key_id: String::new(),
            secret_access_key: String::new(),
            bucket: String::new(),
            public_base_url: String::new(),
            delete_after_days: 0,
        }
    }
}

impl Default for ObsSettings {
    /// OBS settings when `settings.json` has none: manual mode, the default
    /// WebSocket address, no password, nothing launched automatically.
    fn default() -> (r: Self)
        ensures
            r.integration_mode@ == "manual"@,
            r.websocket_url@ == "ws://127.0.0.1:4455"@,
            r.password@.len() == 0,
            !r.auto_launch,
            !r.start_replay_on_launch,
    {
        ObsSettings {
            integration_mode: default_obs_integration_mode(),
            websocket_url: default_obs_websocket_url(),
            password: String::new(),
            auto_launch: false,
            start_replay_on_launch: false,
        }
    }
}

impl R2Settings {
    pub fn copy(&self) -> (r: Self)
        ensures
            r == *self,
    {
        R2Settings {
            enabled: self.enabled,
            provider: self.provider.clone(),
            account_id: self.account_id.clone(),
            endpoint_url: self.endpoint_url.clone(),
            region: self.region.clone(),
            access_key_id: self.access_key_id.clone(),
            secret_access_key: self.secret_access_key.clone(),
            bucket: self.bucket.clone(),
            public_base_url: self.public_base_url.clone(),
            delete_after_days: self.delete_after_days,
        }
    }
}

impl ObsSettings {
    pub fn copy(&self) -> (r: Self)
        ensures
            r == *self,
    {
        ObsSettings {
            integration_mode: self.integration_mode.clone(),
            websocket_url: self.websocket_url.clone(),
            password: self.password.clone(),
            auto_launch: self.auto_launch,
            start_replay_on_launch: self.start_replay_on_launch,
        }
    }
}

/// `s` without any trailing `/` (`str::trim_end_matches('/')`).
pub open spec fn trim_end_slashes(s: Seq<char>) -> Seq<char>
    decreases s.len(),
{
    if s.len() > 0 && s.last() == '/' {
        trim_end_slashes(s.drop_last())
    } else {
        s
    }
}

pub fn trim_end_slashes_exec(s: &str) -> (r: String)
    ensures
        r@ == trim_end_slashes(s@),
{
    let v = chars_of(s);
    let mut j: usize = v.len();
    assert(v@.take(v@.len() as int) =~= v@);
    while j > 0 && v[j - 1] == '/'
        invariant
            j <= v@.len(),
            trim_end_slashes(s@) == trim_end_slashes(v@.take(j as int)),
            v@ == s@,
        decreases j,
    {
        assert(v@.take(j as int).drop_last() =~= v@.take(j - 1));
        j -= 1;
    }
    let mut w = v;
    w.truncate(j);
    string_of(w.as_slice())
}

/// The text, or `default` when it is blank.
pub open spec fn or_default(s: Seq<char>, default: Seq<char>) -> Seq<char> {
    if trim_seq(s).len() == 0 {
        default
    } else {
        s
    }
}

fn or_default_exec(s: &String, default: String) -> (r: String)
    ensures
        r@ == or_default(s@, default@),
{
    let t = trim(s.as_str());
    if t.as_str().is_empty() {
        default
    } else {
        s.clone()
    }
}

/// The endpoint saved for a provider: trimmed, trailing `/` dropped, and for
/// Backblaze B2 given `https://` when it has no scheme.
pub open spec fn normalized_endpoint(provider: Seq<char>, endpoint: Seq<char>) -> Seq<char> {
    let e = trim_end_slashes(trim_seq(endpoint));
    if provider == "b2"@ && e.len() > 0 && !starts_with(e, "http://"@) && !starts_with(e, "https://"@) {
        "https://"@ + e
    } else {
        e
    }
}

/// The settings file's contents (`settings.json`).
pub struct SettingsStore {
    pub watch_path: Option<String>,
    pub r2: R2Settings,
    pub obs: ObsSettings,
}

impl SettingsStore {
    /// The settings of a missing or empty `settings.json`.
    pub fn new() -> (r: Self)
        ensures
            r.watch_path is None,
            !r.r2.enabled,
            r.r2.provider@.len() == 0,
            r.r2.account_id@.len() == 0,
            r.r2.endpoint_url@.len() == 0,
            r.r2.region@.len() == 0,
            r.r2.access_key_id@.len() == 0,
            r.r2.secret_access_key@.len() == 0,
            r.r2.bucket@.len() == 0,
            r.r2.public_base_url@.len() == 0,
            r.r2.delete_after_days == 0,
            r.obs.integration_mode@ == "manual"@,
            r.obs.websocket_url@ == "ws://127.0.0.1:4455"@,
            r.obs.password@.len() == 0,
            !r.obs.auto_launch,
            !r.obs.start_replay_on_launch,
    {
        SettingsStore { watch_path: None, r2: R2Settings::default(), obs: ObsSettings::default() }
    }

    pub fn watch_path(&self) -> (r: Option<String>)
        ensures
            r == self.watch_path,
    {
        match &self.watch_path {
            Some(p) => Some(p.clone()),
            None => None,
        }
    }

    pub fn set_watch_path(&mut self, path: Option<&str>)
        ensures
            match (path, final(self).watch_path) {
                (Some(p), Some(q)) => q@ == p@,
                (None, None) => true,
                _ => false,
            },
            final(self).r2 == old(self).r2,
            final(self).obs == old(self).obs,
    {
        self.watch_path = match path {
            Some(p) => Some(p.to_owned()),
            None => None,
        };
    }

    pub fn r2(&self) -> (r: R2Settings)
        ensures
            r == self.r2,
    {
        self.r2.copy()
    }

    pub fn obs(&self) -> (r: ObsSettings)
        ensures
            r == self.obs,
    {
        self.obs.copy()
    }

    /// The sharing settings as shown to the user: a blank provider or region
    /// shows its default, the secret only as whether it is set.
    pub fn r2_response(&self) -> (r: R2SettingsResponse)
        ensures
            r.enabled == self.r2.enabled,
            r.provider@ == or_default(self.r2.provider@, "r2"@),
            r.account_id@ == self.r2.account_id@,
            r.endpoint_url@ == self.r2.endpoint_url@,
            r.region@ == or_default(self.r2.region@, "auto"@),
            r.access_key_id@ == self.r2.access_key_id@,
            r.secret_set == (self.r2.secret_access_key@.len() > 0),
            r.bucket@ == self.r2.bucket@,
            r.public_base_url@ == self.r2.public_base_url@,
            r.delete_after_days == self.r2.delete_after_days,
    {
        let r2 = &self.r2;
        R2SettingsResponse {
            enabled: r2.enabled,
            provider: or_default_exec(&r2.provider, default_share_provider()),
            account_id: r2.account_id.clone(),
            endpoint_url: r2.endpoint_url.clone(),
            region: or_default_exec(&r2.region, default_share_region()),
            access_key_id: r2.access_key_id.clone(),
            secret_set: !r2.secret_access_key.as_str().is_empty(),
            bucket: r2.bucket.clone(),
            public_base_url: r2.public_base_url.clone(),
            delete_after_days: r2.delete_after_days,
        }
    }

    /// Saves sharing settings from the user: text trimmed, the provider
    /// lowercased, URLs without a trailing `/`, a blank secret ignored, and at
    /// least one day before uploads are deleted.
    pub fn set_r2(&mut self, update: R2SettingsUpdate)
        ensures
            ({
                let r = final(self).r2;
                let provider = unicode_lowercase(trim_seq(update.provider@));
                &&& r.enabled == update.enabled
                &&& r.provider@ == provider
                &&& r.account_id@ == trim_seq(update.account_id@)
                &&& r.endpoint_url@ == normalized_endpoint(provider, update.endpoint_url@)
                &&& r.region@ == trim_seq(update.region@)
                &&& r.access_key_id@ == trim_seq(update.access_key_id@)
                &&& r.secret_access_key@ == match update.secret_access_key {
                    Some(s) => if trim_seq(s@).len() > 0 {
                        trim_seq(s@)
                    } else {
                        old(self).r2.secret_access_key@
                    },
                    None => old(self).r2.secret_access_key@,
                }
                &&& r.bucket@ == trim_seq(update.bucket@)
                &&& r.public_base_url@ == trim_end_slashes(trim_seq(update.public_base_url@))
                &&& r.delete_after_days == if update.delete_after_days < 1 {
                    1
                } else {
                    update.delete_after_days
                }
            }),
            final(self).watch_path == old(self).watch_path,
            final(self).obs == old(self).obs,
    {
        let provider_trimmed = trim(update.provider.as_str());
        let provider = to_lowercase(provider_trimmed.as_str());
        let endpoint_trimmed = trim(update.endpoint_url.as_str());
        let mut endpoint = trim_end_slashes_exec(endpoint_trimmed.as_str());
        let ev = chars_of(endpoint.as_str());
        let http = chars_of("http://");
        let https = chars_of("https://");
        if crate::text::str_eq(provider.as_str(), "b2") && ev.len() > 0 && !starts_with_chars(
            ev.as_slice(),
            http.as_slice(),
        ) && !starts_with_chars(ev.as_slice(), https.as_slice()) {
            let mut with_scheme = String::from_str("https://");
            with_scheme.append(endpoint.as_str());
            endpoint = with_scheme;
        }
        self.r2.enabled = update.enabled;
        self.r2.provider = provider;
        self.r2.account_id = trim(update.account_id.as_str());
        self.r2.endpoint_url = endpoint;
        self.r2.region = trim(update.region.as_str());
        self.r2.access_key_id = trim(update.access_key_id.as_str());
        match &update.secret_access_key {
            Some(secret) => {
                let s = trim(secret.as_str());
                if !s.as_str().is_empty() {
                    self.r2.secret_access_key = s;
                }
            },
            None => {},
        }
        self.r2.bucket = trim(update.bucket.as_str());
        let url = trim(update.public_base_url.as_str());
        self.r2.public_base_url = trim_end_slashes_exec(url.as_str());
        self.r2.delete_after_days = if update.delete_after_days < 1 {
            1
        } else {
            update.delete_after_days
        };
    }

    /// The OBS settings as shown to the user: a blank mode or address shows
    /// its default, the password only as whether it is set.
    pub fn obs_response(&self) -> (r: ObsSettingsResponse)
        ensures
            r.integration_mode@ == or_default(self.obs.integration_mode@, "manual"@),
            r.websocket_url@ == or_default(self.obs.websocket_url@, "ws://127.0.0.1:4455"@),
            r.password_set == (self.obs.password@.len() > 0),
            r.auto_launch == self.obs.auto_launch,
            r.start_replay_on_launch == self.obs.start_replay_on_launch,
    {
        ObsSettingsResponse {
            integration_mode: or_default_exec(
                &self.obs.integration_mode,
                default_obs_integration_mode(),
            ),
            websocket_url: or_default_exec(&self.obs.websocket_url, default_obs_websocket_url()),
            password_set: !self.obs.password.as_str().is_empty(),
            auto_launch: self.obs.auto_launch,
            start_replay_on_launch: self.obs.start_replay_on_launch,
        }
    }

    /// Saves OBS settings from the user: an unknown mode becomes `manual`, a
    /// blank address the default one, a given password is trimmed.
    pub fn set_obs(&mut self, update: ObsSettingsUpdate)
        ensures
            ({
                let o = final(self).obs;
                let mode = unicode_lowercase(trim_seq(update.integration_mode@));
                let url = trim_seq(update.websocket_url@);
                &&& o.integration_mode@ == if mode == "off"@ || mode == "manual"@ || mode
                    == "managed"@ {
                    mode
                } else {
                    "manual"@
                }
                &&& o.websocket_url@ == if url.len() == 0 {
                    "ws://127.0.0.1:4455"@
                } else {
                    url
                }
                &&& o.password@ == match update.password {
                    Some(p) => trim_seq(p@),
                    None => old(self).obs.password@,
                }
                &&& o.auto_launch == update.auto_launch
                &&& o.start_replay_on_launch == update.start_replay_on_launch
            }),
            final(self).watch_path == old(self).watch_path,
            final(self).r2 == old(self).r2,
    {
        let mode_trimmed = trim(update.integration_mode.as_str());
        let mode = to_lowercase(mode_trimmed.as_str());
        let m = mode.as_str();
        self.obs.integration_mode = if crate::text::str_eq(m, "off") || crate::text::str_eq(
            m,
            "manual",
        ) || crate::text::str_eq(m, "managed") {
            mode
        } else {
            default_obs_integration_mode()
        };
        let url = trim(update.websocket_url.as_str());
        self.obs.websocket_url = if url.as_str().is_empty() {
            default_obs_websocket_url()
        } else {
            url
        };
        match &update.password {
            Some(p) => {
                self.obs.password = trim(p.as_str());
            },
            None => {},
        }
        self.obs.auto_launch = update.auto_launch;
        self.obs.start_replay_on_launch = update.start_replay_on_launch;
    }
}

/// The OBS settings response, with the address replaced by the one found in
/// OBS's own configuration when managed mode still has the default or no
/// address (`get_obs_settings`).
pub fn obs_settings_with_detected_url(response: ObsSettingsResponse, detected: Option<String>) -> (r:
    ObsSettingsResponse)
    ensures
        r.integration_mode == response.integration_mode,
        r.password_set == response.password_set,
        r.auto_launch == response.auto_launch,
        r.start_replay_on_launch == response.start_replay_on_launch,
        r.websocket_url@ == if response.integration_mode@ == "managed"@ && (trim_seq(
            response.websocket_url@,
        ).len() == 0 || response.websocket_url@ == "ws://127.0.0.1:4455"@) && detected is Some {
            detected->0@
        } else {
            response.websocket_url@
        },
{
    let mut response = response;
    if crate::text::str_eq(response.integration_mode.as_str(), "managed") && (trim(
        response.websocket_url.as_str(),
    ).as_str().is_empty() || crate::text::str_eq(
        response.websocket_url.as_str(),
        "ws://127.0.0.1:4455",
    )) {
        match detected {
            Some(url) => {
                response.websocket_url = url;
            },
            None => {},
        }
    }
    response
}

} // verus!
