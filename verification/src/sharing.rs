//! Sharing clips through an S3-compatible bucket (Cloudflare R2 or Backblaze
//! B2): where the client connects, the object key and link of an upload,
//! recording and expiring shares, and the sharing config handed to friends.
//!
//! The S3 calls themselves (upload, presigned link, delete) are the
//! caller's part.
use vstd::prelude::*;

use crate::clip::{Clip, opt_str_view};
use crate::instant::{before, days_earlier, Instant, parse_rfc3339, rfc3339_instant};
use crate::jobs::edit_result;
use crate::numtext::decimal;
use crate::settings::{R2Settings, R2SettingsUpdate, trim_end_slashes, trim_end_slashes_exec};
use crate::store::{ClipStore, edited, key_index, lemma_edit_by, StoreEntry};
use crate::text::{
    append_str, chars_of, is_err_msg, owned, push_char, str_eq, to_lowercase, trim, trim_seq,
    unicode_lowercase,
};

verus! {

/// How the S3 client is set up.
pub struct R2ClientConfig {
    pub endpoint: String,
    pub region: String,
    /// The name the credentials are filed under: "b2" or "r2".
    pub provider_name: String,
}

/// `r2_client`'s checks and choices: keys and bucket must be set; Backblaze
/// B2 needs its endpoint (trailing slashes dropped), R2 its account id (the
/// endpoint is derived from it); the region defaults to `us-west-004` for B2
/// and `auto` for R2.
pub open spec fn r2_client_spec(s: R2Settings) -> Result<(Seq<char>, Seq<char>, Seq<char>), Seq<char>> {
    let b2 = unicode_lowercase(trim_seq(s.provider@)) == "b2"@;
    if s.access_key_id@.len() == 0 || s.secret_access_key@.len() == 0 || s.bucket@.len() == 0 {
        Err("sharing settings incomplete"@)
    } else if b2 && trim_seq(s.endpoint_url@).len() == 0 {
        Err("Backblaze B2 endpoint missing"@)
    } else if !b2 && trim_seq(s.account_id@).len() == 0 {
        Err("R2 account ID missing"@)
    } else {
        let endpoint = if b2 {
            trim_end_slashes(trim_seq(s.endpoint_url@))
        } else {
            "https://"@ + s.account_id@ + ".r2.cloudflarestorage.com"@
        };
        let region = if trim_seq(s.region@).len() == 0 {
            if b2 {
                "us-west-004"@
            } else {
                "auto"@
            }
        } else {
            trim_seq(s.region@)
        };
        Ok((endpoint, region, if b2 {
            "b2"@
        } else {
            "r2"@
        }))
    }
}

pub fn r2_client_config(s: &R2Settings) -> (r: Result<R2ClientConfig, String>)
    ensures
        match (r, r2_client_spec(*s)) {
            (Ok(c), Ok((e, g, p))) => c.endpoint@ == e && c.region@ == g && c.provider_name@ == p,
            (Err(e), Err(m)) => e@ == m,
            _ => false,
        },
{
    if s.access_key_id.as_str().is_empty() || s.secret_access_key.as_str().is_empty()
        || s.bucket.as_str().is_empty() {
        return Err(owned("sharing settings incomplete"));
    }
    let p = trim(s.provider.as_str());
    let lower = to_lowercase(p.as_str());
    let b2 = str_eq(lower.as_str(), "b2");
    let endpoint = if b2 {
        let e = trim(s.endpoint_url.as_str());
        if e.as_str().is_empty() {
            return Err(owned("Backblaze B2 endpoint missing"));
        }
        trim_end_slashes_exec(e.as_str())
    } else {
        let a = trim(s.account_id.as_str());
        if a.as_str().is_empty() {
            return Err(owned("R2 account ID missing"));
        }
        let mut e = owned("https://");
        append_str(&mut e, s.account_id.as_str());
        append_str(&mut e, ".r2.cloudflarestorage.com");
        e
    };
    let rg = trim(s.region.as_str());
    let region = if rg.as_str().is_empty() {
        if b2 {
            owned("us-west-004")
        } else {
            owned("auto")
        }
    } else {
        rg
    };
    let provider_name = if b2 {
        owned("b2")
    } else {
        owned("r2")
    };
    Ok(R2ClientConfig { endpoint, region, provider_name })
}

/// The link an upload is shared by.
pub enum ShareLink {
    /// A presigned download link valid this many seconds.
    Presigned(u64),
    /// A public URL.
    Public(String),
}

/// Without a public base URL the link is presigned for the delete-after
/// period (held between 1 and 7 days); with one it is `{base}/{key}`, the
/// base's trailing slashes dropped.
pub fn share_link(s: &R2Settings, key: &str) -> (r: ShareLink)
    ensures
        match r {
            ShareLink::Presigned(secs) => s.public_base_url@.len() == 0 && secs == (if s.delete_after_days
                < 1 {
                1
            } else if s.delete_after_days > 7 {
                7
            } else {
                s.delete_after_days as int
            }) * 86_400,
            ShareLink::Public(u) => s.public_base_url@.len() > 0 && u@ == trim_end_slashes(
                s.public_base_url@,
            ) + seq!['/'] + key@,
        },
{
    if s.public_base_url.as_str().is_empty() {
        let d: u64 = if s.delete_after_days < 1 {
            1
        } else if s.delete_after_days > 7 {
            7
        } else {
            s.delete_after_days as u64
        };
        ShareLink::Presigned(d * 86_400)
    } else {
        let mut u = trim_end_slashes_exec(s.public_base_url.as_str());
        push_char(&mut u, '/');
        append_str(&mut u, key);
        ShareLink::Public(u)
    }
}

pub open spec fn is_ascii_alnum(c: char) -> bool {
    ('0' <= c && c <= '9') || ('a' <= c && c <= 'z') || ('A' <= c && c <= 'Z')
}

/// The id's ASCII letters and digits, in order.
pub open spec fn alnum_of(s: Seq<char>) -> Seq<char>
    decreases s.len(),
{
    if s.len() == 0 {
        s
    } else if is_ascii_alnum(s.last()) {
        alnum_of(s.drop_last()).push(s.last())
    } else {
        alnum_of(s.drop_last())
    }
}

/// The object key of a clip's upload: `c/{first ten letters and digits of
/// the id}.mp4`.
pub open spec fn share_key_spec(id: Seq<char>) -> Seq<char> {
    let a = alnum_of(id);
    "c/"@ + a.take(if a.len() < 10 {
        a.len() as int
    } else {
        10
    }) + ".mp4"@
}

pub fn share_key(id: &str) -> (r: String)
    ensures
        r@ == share_key_spec(id@),
{
    let v = chars_of(id);
    let mut a: Vec<char> = Vec::new();
    let mut i: usize = 0;
    while i < v.len()
        invariant
            i <= v@.len(),
            v@ == id@,
            a@ == alnum_of(v@.take(i as int)),
        decreases v.len() - i,
    {
        proof {
            assert(v@.take(i + 1).drop_last() =~= v@.take(i as int));
        }
        let c = v[i];
        if ('0' <= c && c <= '9') || ('a' <= c && c <= 'z') || ('A' <= c && c <= 'Z') {
            a.push(c);
        }
        i += 1;
    }
    assert(v@.take(i as int) =~= v@);
    let n = if a.len() < 10 {
        a.len()
    } else {
        10
    };
    let mut r = owned("c/");
    let ghost before = r@;
    let mut k: usize = 0;
    while k < n
        invariant
            n <= a@.len(),
            k <= n,
            r@ == before + a@.take(k as int),
        decreases n - k,
    {
        push_char(&mut r, a[k]);
        assert(a@.take(k + 1) =~= a@.take(k as int).push(a@[k as int]));
        k += 1;
    }
    append_str(&mut r, ".mp4");
    r
}

/// `upload_clip_to_r2`'s checks: the clip must exist, sharing be on, and the
/// clip's length be known (which is returned).
pub fn upload_checks(clip: Option<&Clip>, enabled: bool) -> (r: Result<u64, String>)
    ensures
        match clip {
            None => is_err_msg(r, "clip not found"@),
            Some(c) => if !enabled {
                is_err_msg(r, "cloud sharing is disabled"@)
            } else {
                match c.duration_us {
                    Some(d) => r == Ok::<u64, String>(d),
                    None => is_err_msg(r, "clip duration unknown — wait for processing to finish"@),
                }
            },
        },
{
    let c = match clip {
        Some(c) => c,
        None => {
            return Err(owned("clip not found"));
        },
    };
    if !enabled {
        return Err(owned("cloud sharing is disabled"));
    }
    match c.duration_us {
        Some(d) => Ok(d),
        None => Err(owned("clip duration unknown — wait for processing to finish")),
    }
}

/// `export_clip_for_discord`'s checks: the clip must exist and its length be
/// known (which is returned).
pub fn export_checks(clip: Option<&Clip>) -> (r: Result<u64, String>)
    ensures
        match clip {
            None => is_err_msg(r, "clip not found"@),
            Some(c) => match c.duration_us {
                Some(d) => r == Ok::<u64, String>(d),
                None => is_err_msg(r, "clip duration unknown — wait for processing to finish"@),
            },
        },
{
    let c = match clip {
        Some(c) => c,
        None => {
            return Err(owned("clip not found"));
        },
    };
    match c.duration_us {
        Some(d) => Ok(d),
        None => Err(owned("clip duration unknown — wait for processing to finish")),
    }
}

/// `new` is `old` shared under the key and URL at the time.
pub open spec fn shared(old: Clip, new: Clip, key: Seq<char>, url: Seq<char>, at: Seq<char>) -> bool {
    &&& new == Clip { share_key: new.share_key, share_url: new.share_url, shared_at: new.shared_at, ..old }
    &&& opt_str_view(new.share_key) == Some(key)
    &&& opt_str_view(new.share_url) == Some(url)
    &&& opt_str_view(new.shared_at) == Some(at)
}

/// Records a finished upload on the clip.
pub fn record_share(store: &mut ClipStore, id: &str, key: &str, url: &str, shared_at: &str) -> (r:
    Result<Clip, String>)
    requires
        old(store).wf(),
    ensures
        final(store).wf(),
        edited(
            old(store).entries(),
            id@,
            final(store).entries(),
            |a: Clip, b: Clip| shared(a, b, key@, url@, shared_at@),
        ),
        match r {
            Ok(c) => edit_result(old(store).entries(), id@, final(store).entries(), Some(c)),
            Err(e) => key_index(old(store).entries(), id@) == -1 && e@
                == "clip not found after upload"@,
        },
{
    let k = owned(key);
    let u = owned(url);
    let t = owned(shared_at);
    let f = |c: Clip| -> (out: Clip)
        ensures
            shared(c, out, k@, u@, t@),
        { Clip { share_key: Some(k.clone()), share_url: Some(u.clone()), shared_at: Some(t.clone()), ..c } };
    let ghost before = store.entries();
    let r = store.update(id, f);
    proof {
        lemma_edit_by(
            f,
            before,
            id@,
            store.entries(),
            |a: Clip, b: Clip| shared(a, b, key@, url@, shared_at@),
        );
    }
    match r {
        Some(c) => Ok(c),
        None => Err(owned("clip not found after upload")),
    }
}

/// `new` is `old` with its share forgotten.
pub open spec fn unshared(old: Clip, new: Clip) -> bool {
    new == Clip { share_key: None, share_url: None, shared_at: None, ..old }
}

pub fn forget_share(c: Clip) -> (r: Clip)
    ensures
        unshared(c, r),
{
    Clip { share_key: None, share_url: None, shared_at: None, ..c }
}

/// After its object was deleted, the clip forgets the share.
pub fn clear_share(store: &mut ClipStore, id: &str) -> (r: Option<Clip>)
    requires
        old(store).wf(),
    ensures
        final(store).wf(),
        edited(old(store).entries(), id@, final(store).entries(), |a: Clip, b: Clip| unshared(a, b)),
        edit_result(old(store).entries(), id@, final(store).entries(), r),
{
    let ghost before = store.entries();
    let r = store.update(id, forget_share);
    proof {
        lemma_edit_by(forget_share, before, id@, store.entries(), |a: Clip, b: Clip| unshared(a, b));
    }
    r
}

/// A shared clip whose share is old enough to delete: it has a key and a
/// share time no later than the cutoff.
pub open spec fn share_expired(c: Clip, cutoff: Instant) -> bool {
    &&& c.share_key is Some
    &&& c.shared_at matches Some(t) && rfc3339_instant(t@) matches Some(at) && !before(cutoff, at)
}

/// The expired shares among the clips, in order, as (id, key) pairs.
pub open spec fn expired_shares_spec(clips: Seq<Clip>, cutoff: Instant) -> Seq<(Seq<char>, Seq<char>)>
    decreases clips.len(),
{
    if clips.len() == 0 {
        Seq::empty()
    } else if share_expired(clips.last(), cutoff) {
        expired_shares_spec(clips.drop_last(), cutoff).push(
            (clips.last().id@, clips.last().share_key->Some_0@),
        )
    } else {
        expired_shares_spec(clips.drop_last(), cutoff)
    }
}

pub struct ExpiredShare {
    pub id: String,
    pub key: String,
}

/// `run_r2_cleanup`'s choice: with sharing on, the shares made at least
/// `delete_after_days` days before `now`.
pub fn expired_shares(clips: &Vec<Clip>, enabled: bool, now: Instant, delete_after_days: u32) -> (r:
    Vec<ExpiredShare>)
    requires
        now.secs - delete_after_days * 86_400 >= i64::MIN,
    ensures
        !enabled ==> r@.len() == 0,
        enabled ==> r@.map_values(|e: ExpiredShare| (e.id@, e.key@)) == expired_shares_spec(
            clips@,
            days_earlier(now, delete_after_days as int),
        ),
{
    let mut out: Vec<ExpiredShare> = Vec::new();
    if !enabled {
        return out;
    }
    let cutoff = match crate::instant::days_before(now, delete_after_days) {
        Some(c) => c,
        None => {
            return out;
        },
    };
    let mut i: usize = 0;
    while i < clips.len()
        invariant
            i <= clips@.len(),
            cutoff == days_earlier(now, delete_after_days as int),
            out@.map_values(|e: ExpiredShare| (e.id@, e.key@)) == expired_shares_spec(
                clips@.take(i as int),
                cutoff,
            ),
        decreases clips.len() - i,
    {
        proof {
            assert(clips@.take(i + 1).drop_last() =~= clips@.take(i as int));
        }
        let c = &clips[i];
        let ghost before = out@;
        match (&c.share_key, &c.shared_at) {
            (Some(k), Some(t)) => match parse_rfc3339(t.as_str()) {
                Some(at) => {
                    if !crate::instant::is_before(cutoff, at) {
                        out.push(ExpiredShare { id: c.id.clone(), key: k.clone() });
                        assert(out@.map_values(|e: ExpiredShare| (e.id@, e.key@)) =~= before.map_values(
                            |e: ExpiredShare| (e.id@, e.key@),
                        ).push((c.id@, k@)));
                    }
                },
                None => {},
            },
            _ => {},
        }
        i += 1;
    }
    assert(clips@.take(i as int) =~= clips@);
    out
}

// ------------------------------------------------------------ friends

/// The sharing settings a user hands a friend (`533clip` version 1).
pub struct FriendSharingConfig {
    pub app: String,
    pub version: u8,
    pub provider: String,
    pub account_id: String,
    pub endpoint_url: String,
    pub region: String,
    pub access_key_id: String,
    pub secret_access_key: String,
    pub bucket: String,
    pub public_base_url: String,
    pub delete_after_days: u32,
}

/// Days after which friends' uploads are deleted where the config does not
/// say (15).
pub fn default_friend_delete_days() -> (r: u32)
    ensures
        r == 15,
{
    15
}

/// `export_friend_sharing_config`: the stored sharing settings, labelled.
pub fn export_friend_config(r2: &R2Settings) -> (r: FriendSharingConfig)
    ensures
        r.app@ == "533clip"@,
        r.version == 1,
        r.provider == r2.provider,
        r.account_id == r2.account_id,
        r.endpoint_url == r2.endpoint_url,
        r.region == r2.region,
        r.access_key_id == r2.access_key_id,
        r.secret_access_key == r2.secret_access_key,
        r.bucket == r2.bucket,
        r.public_base_url == r2.public_base_url,
        r.delete_after_days == r2.delete_after_days,
{
    FriendSharingConfig {
        app: owned("533clip"),
        version: 1,
        provider: r2.provider.clone(),
        account_id: r2.account_id.clone(),
        endpoint_url: r2.endpoint_url.clone(),
        region: r2.region.clone(),
        access_key_id: r2.access_key_id.clone(),
        secret_access_key: r2.secret_access_key.clone(),
        bucket: r2.bucket.clone(),
        public_base_url: r2.public_base_url.clone(),
        delete_after_days: r2.delete_after_days,
    }
}

/// `import_friend_sharing_config`: a config labelled `533clip` turns sharing
/// on with the friend's settings, keeping the user's own key id and secret
/// where the config leaves them blank.
pub fn import_friend_config(config: FriendSharingConfig, current: &R2Settings) -> (r: Result<
    R2SettingsUpdate,
    String,
>)
    ensures
        config.app@ != "533clip"@ ==> is_err_msg(r, "Not a 533clip sharing config"@),
        config.app@ == "533clip"@ ==> match r {
            Ok(u) => {
                &&& u.enabled
                &&& u.provider == config.provider
                &&& u.account_id == config.account_id
                &&& u.endpoint_url == config.endpoint_url
                &&& u.region == config.region
                &&& u.access_key_id == if trim_seq(config.access_key_id@).len() == 0 {
                    current.access_key_id
                } else {
                    config.access_key_id
                }
                &&& u.secret_access_key == if trim_seq(config.secret_access_key@).len() == 0 {
                    None
                } else {
                    Some(config.secret_access_key)
                }
                &&& u.bucket == config.bucket
                &&& u.public_base_url == config.public_base_url
                &&& u.delete_after_days == config.delete_after_days
            },
            Err(_) => false,
        },
{
    if !str_eq(config.app.as_str(), "533clip") {
        return Err(owned("Not a 533clip sharing config"));
    }
    let key_blank = trim(config.access_key_id.as_str()).as_str().is_empty();
    let secret_blank = trim(config.secret_access_key.as_str()).as_str().is_empty();
    Ok(
        R2SettingsUpdate {
            enabled: true,
            provider: config.provider,
            account_id: config.account_id,
            endpoint_url: config.endpoint_url,
            region: config.region,
            access_key_id: if key_blank {
                current.access_key_id.clone()
            } else {
                config.access_key_id
            },
            secret_access_key: if secret_blank {
                None
            } else {
                Some(config.secret_access_key)
            },
            bucket: config.bucket,
            public_base_url: config.public_base_url,
            delete_after_days: config.delete_after_days,
        },
    )
}

} // verus!
