//! Keys that clients of the proxy may be asked for.

use vstd::prelude::*;

use crate::config::value_or;
use crate::interop::digest::{sha256_hex, sha256_text};
use crate::text::{opt_str, same_text, trim, trim_text};

verus! {

/// A stored key, without its secret.
#[derive(Clone, Debug)]
pub struct ProxyKeyView {
    pub id: i64,
    pub name: String,
    pub enabled: i64,
    pub created_at: String,
}

/// What is stored of a key: never the secret, only its digest.
#[derive(Clone, Debug)]
pub struct StoredKey {
    pub name: String,
    pub key_secret: String,
    pub enabled: bool,
    pub created_at: String,
    pub updated_at: String,
}

/// A stored key as a mathematical value.
pub struct KeyModel {
    pub name: Seq<char>,
    pub key_secret: Seq<char>,
    pub enabled: bool,
    pub created_at: Seq<char>,
    pub updated_at: Seq<char>,
}

impl View for StoredKey {
    type V = KeyModel;

    open spec fn view(&self) -> KeyModel {
        KeyModel {
            name: self.name@,
            key_secret: self.key_secret@,
            enabled: self.enabled,
            created_at: self.created_at@,
            updated_at: self.updated_at@,
        }
    }
}

/// The views of `keys`.
pub open spec fn key_views(keys: Seq<StoredKey>) -> Seq<KeyModel> {
    keys.map_values(|key: StoredKey| key@)
}

/// The key to store for a name and a secret at the time `now`.
pub open spec fn key_of(name: Seq<char>, secret: Seq<char>, now: Seq<char>) -> KeyModel {
    KeyModel {
        name: trim(name),
        key_secret: sha256_text(trim(secret)),
        enabled: true,
        created_at: now,
        updated_at: now,
    }
}

/// Whether some key is in use.
pub open spec fn any_enabled(keys: Seq<KeyModel>) -> bool {
    exists|i: int| 0 <= i < keys.len() && (#[trigger] keys[i]).enabled
}

/// Whether some key in use has the digest `digest`.
pub open spec fn digest_known(keys: Seq<KeyModel>, digest: Seq<char>) -> bool {
    exists|i: int|
        0 <= i < keys.len() && (#[trigger] keys[i]).enabled && keys[i].key_secret == digest
}

/// Whether a request whose token has the digest `digest` may pass: anyone may
/// while no key is in use.
pub open spec fn admitted(keys: Seq<KeyModel>, digest: Option<Seq<char>>) -> bool {
    ||| !any_enabled(keys)
    ||| digest matches Some(digest) && digest_known(keys, digest)
}

/// The digest of a token; an empty one counts as none.
pub open spec fn token_digest(token: Option<Seq<char>>) -> Option<Seq<char>> {
    match token {
        Some(token) if token.len() > 0 => Some(sha256_text(token)),
        _ => None,
    }
}

/// Whether a request with `token` may pass.
pub open spec fn authorized(keys: Seq<KeyModel>, token: Option<Seq<char>>) -> bool {
    admitted(keys, token_digest(token))
}

/// Whoever presents the secret of a stored key may pass, provided that the
/// secret has something besides white space around it.
pub proof fn lemma_created_key_authorizes(
    keys: Seq<KeyModel>,
    name: Seq<char>,
    secret: Seq<char>,
    now: Seq<char>,
)
    requires
        trim(secret).len() > 0,
    ensures
        authorized(keys.push(key_of(name, secret, now)), Some(trim(secret))),
{
    let all = keys.push(key_of(name, secret, now));
    assert(all[keys.len() as int] == key_of(name, secret, now));
}

/// Once a key is in use, a request without a token is refused.
pub proof fn lemma_missing_token_is_refused(
    keys: Seq<KeyModel>,
    name: Seq<char>,
    secret: Seq<char>,
    now: Seq<char>,
)
    ensures
        !authorized(keys.push(key_of(name, secret, now)), None),
        !authorized(keys.push(key_of(name, secret, now)), Some(Seq::empty())),
{
    let all = keys.push(key_of(name, secret, now));
    assert(all[keys.len() as int].enabled);
}

/// While some key is in use, a request may pass exactly if a key in use has its
/// digest; while none is, every request may. Keys that are not in use do not
/// matter.
pub proof fn lemma_who_may_pass(
    keys: Seq<KeyModel>,
    at: int,
    digest: Option<Seq<char>>,
    unused: KeyModel,
)
    requires
        !unused.enabled,
    ensures
        (forall|i: int| 0 <= i < keys.len() ==> !(#[trigger] keys[i]).enabled) ==> admitted(
            keys,
            digest,
        ),
        0 <= at < keys.len() && keys[at].enabled && digest == Some(keys[at].key_secret) ==> admitted(
            keys,
            digest,
        ),
        0 <= at < keys.len() && keys[at].enabled && (forall|i: int|
            0 <= i < keys.len() && (#[trigger] keys[i]).enabled ==> digest != Some(
                keys[i].key_secret,
            )) ==> !admitted(keys, digest),
        admitted(keys.push(unused), digest) == admitted(keys, digest),
{
    let more = keys.push(unused);
    assert(forall|i: int| 0 <= i < keys.len() ==> more[i] == #[trigger] keys[i]);
    assert(more[keys.len() as int] == unused);
    if any_enabled(keys) {
        let i = choose|i: int| 0 <= i < keys.len() && (#[trigger] keys[i]).enabled;
        assert(more[i].enabled);
    }
    if let Some(digest) = digest {
        if digest_known(keys, digest) {
            let i = choose|i: int|
                0 <= i < keys.len() && (#[trigger] keys[i]).enabled && keys[i].key_secret == digest;
            assert(more[i].enabled && more[i].key_secret == digest);
        }
        if digest_known(more, digest) {
            let i = choose|i: int|
                0 <= i < more.len() && (#[trigger] more[i]).enabled && more[i].key_secret == digest;
            assert(keys[i].enabled && keys[i].key_secret == digest);
        }
    }
    if any_enabled(more) {
        let i = choose|i: int| 0 <= i < more.len() && (#[trigger] more[i]).enabled;
        assert(keys[i].enabled);
    }
}

/// A token counts by its digest, and an empty one as none.
pub proof fn lemma_tokens_count_by_their_digest(keys: Seq<KeyModel>, token: Seq<char>)
    ensures
        token.len() > 0 ==> authorized(keys, Some(token)) == admitted(
            keys,
            Some(sha256_text(token)),
        ),
        token.len() == 0 ==> authorized(keys, Some(token)) == admitted(keys, None),
        authorized(keys, None) == admitted(keys, None),
{
}

/// A new key is in use at once. Of its secret only the digest is kept, and white
/// space around the name and the secret is left out.
pub proof fn lemma_a_new_key_keeps_no_secret(
    name: Seq<char>,
    secret: Seq<char>,
    now: Seq<char>,
)
    ensures
        key_of(name, secret, now).enabled,
        key_of(name, secret, now).name == trim(name),
        key_of(name, secret, now).key_secret == sha256_text(trim(secret)),
        key_of(name, secret, now).created_at == now,
        key_of(name, secret, now).updated_at == now,
{
}

/// The environment adds a key exactly if it gives a secret and no key of that name
/// is stored; without a name the key is called `default`.
pub proof fn lemma_the_environment_adds_a_key_once(
    keys: Seq<StoredKey>,
    secret: Seq<char>,
    name: Seq<char>,
    now: Seq<char>,
    at: int,
)
    ensures
        seed_of(keys, None, Some(name), now) is None,
        seed_of(keys, Some(Seq::empty()), Some(name), now) is None,
        0 <= at < keys.len() && keys[at].name@ == name ==> seed_of(
            keys,
            Some(secret),
            Some(name),
            now,
        ) is None,
        secret.len() > 0 && (forall|i: int|
            0 <= i < keys.len() ==> #[trigger] keys[i].name@ != name) ==> seed_of(
            keys,
            Some(secret),
            Some(name),
            now,
        ) == Some(key_of(name, secret, now)),
        seed_of(keys, Some(secret), None, now) == seed_of(
            keys,
            Some(secret),
            Some("default"@),
            now,
        ),
{
}

/// The digest that stands for a secret.
pub fn hash_secret(secret: &str) -> (digest: String)
    ensures
        digest@ == sha256_text(secret@),
{
    sha256_hex(secret)
}

/// The key to store for a name and a secret at the time `now`.
pub fn create(name: &str, key_secret: &str, now: &str) -> (key: StoredKey)
    ensures
        key@ == key_of(name@, key_secret@, now@),
{
    let secret = trim_text(key_secret);
    StoredKey {
        name: trim_text(name),
        key_secret: hash_secret(secret.as_str()),
        enabled: true,
        created_at: now.to_string(),
        updated_at: now.to_string(),
    }
}

/// Whether some key has `name`, white space around it left aside.
pub fn name_exists(keys: &[StoredKey], name: &str) -> (found: bool)
    ensures
        found == exists|i: int| 0 <= i < keys@.len() && #[trigger] keys@[i].name@ == trim(name@),
{
    let wanted = trim_text(name);
    has_name(keys, wanted.as_str())
}

fn has_name(keys: &[StoredKey], name: &str) -> (found: bool)
    ensures
        found == exists|i: int| 0 <= i < keys@.len() && #[trigger] keys@[i].name@ == name@,
{
    let mut i: usize = 0;
    while i < keys.len()
        invariant
            i <= keys@.len(),
            forall|k: int| 0 <= k < i ==> #[trigger] keys@[k].name@ != name@,
        decreases keys@.len() - i,
    {
        if same_text(keys[i].name.as_str(), name) {
            assert(keys@[i as int].name@ == name@);
            return true;
        }
        i += 1;
    }
    false
}

/// The key to add at the start, if any: the one that the environment names,
/// unless a key of that very name is stored.
pub open spec fn seed_of(
    keys: Seq<StoredKey>,
    secret: Option<Seq<char>>,
    name: Option<Seq<char>>,
    now: Seq<char>,
) -> Option<KeyModel> {
    let name = value_or(name, "default"@);
    match secret {
        Some(secret) if secret.len() > 0 && !(exists|i: int|
            0 <= i < keys.len() && #[trigger] keys[i].name@ == name) => Some(
            key_of(name, secret, now),
        ),
        _ => None,
    }
}

/// The key to add at the start, if any.
pub fn seed_from_env(
    keys: &[StoredKey],
    secret: Option<&str>,
    name: Option<&str>,
    now: &str,
) -> (key: Option<StoredKey>)
    ensures
        match key {
            Some(key) => seed_of(keys@, opt_str(secret), opt_str(name), now@) == Some(key@),
            None => seed_of(keys@, opt_str(secret), opt_str(name), now@) is None,
        },
{
    let name: &str = match name {
        Some(name) => name,
        None => "default",
    };
    match secret {
        Some(secret) => {
            if secret.unicode_len() > 0 && !has_name(keys, name) {
                Some(create(name, secret, now))
            } else {
                None
            }
        },
        None => None,
    }
}

/// Whether a request with `bearer_token` may pass.
pub fn is_authorized(keys: &[StoredKey], bearer_token: Option<&str>) -> (allowed: bool)
    ensures
        allowed == authorized(key_views(keys@), opt_str(bearer_token)),
{
    match bearer_token {
        Some(token) => {
            if token.unicode_len() > 0 {
                let digest = hash_secret(token);
                admits(keys, Some(digest.as_str()))
            } else {
                admits(keys, None)
            }
        },
        None => admits(keys, None),
    }
}

/// Whether a request whose token has the digest `digest` may pass.
pub fn admits(keys: &[StoredKey], digest: Option<&str>) -> (allowed: bool)
    ensures
        allowed == admitted(key_views(keys@), opt_str(digest)),
{
    let ghost views = key_views(keys@);
    let mut enabled = false;
    let mut i: usize = 0;
    while i < keys.len()
        invariant
            i <= keys@.len(),
            views == key_views(keys@),
            enabled == exists|k: int| 0 <= k < i && (#[trigger] views[k]).enabled,
            forall|k: int|
                0 <= k < i && (#[trigger] views[k]).enabled ==> Some(views[k].key_secret)
                    != opt_str(digest),
        decreases keys@.len() - i,
    {
        assert(views[i as int] == keys@[i as int]@);
        if keys[i].enabled {
            enabled = true;
            if let Some(digest) = digest {
                if same_text(keys[i].key_secret.as_str(), digest) {
                    assert(views[i as int].enabled && views[i as int].key_secret == digest@);
                    return true;
                }
            }
        }
        i += 1;
    }
    !enabled
}

}
