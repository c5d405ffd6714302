//! Generating a full set of credentials from the user's settings, and the
//! status line that says where the randomness came from.

use crate::charset::Charset;
use crate::generator::{
    is_passphrase_for, is_password_for, is_username_for, passphrase, password, spec_passphrase,
    spec_password, spec_username, username,
};
use crate::random::spec_std_rng_from_seed;
use crate::seed::{random_org_rng, spec_mixed_seed};
use crate::wordlist::{string_views, WordPool};
use rand::rngs::StdRng;
use vstd::prelude::*;

verus! {

/// Which kind of secret to generate.
#[derive(Clone, Copy, PartialEq, Eq, Structural, Debug)]
pub enum SecretMode {
    Password,
    Passphrase,
}

/// Everything that shapes one generation.
pub struct GenerationSettings {
    pub mode: SecretMode,
    pub charset: Charset,
    pub length: usize,
    pub passphrase_words: usize,
    pub passphrase_separator: char,
    pub passphrase_capitalize: bool,
    pub with_username: bool,
    pub username_digits: usize,
    pub use_random_org: bool,
    pub random_org_api_key: String,
}

/// One generated set of credentials and where its randomness came from.
pub struct GeneratedCredentials {
    pub password: String,
    pub username: String,
    pub entropy_status: String,
}

/// Status when only the operating system's randomness was used.
pub open spec fn os_status() -> Seq<char> {
    "Using OS randomness"@
}

/// Status when the Random.org seed was mixed in.
pub open spec fn mixed_status() -> Seq<char> {
    "Mixed Random.org with OS randomness"@
}

/// Status when Random.org could not be used, with the reason.
pub open spec fn fallback_status_of(err: Seq<char>) -> Seq<char> {
    "Random.org failed; using OS randomness ("@ + err + ")"@
}

/// The status line for a Random.org failure.
pub fn fallback_status(err: &str) -> (r: String)
    ensures
        r@ == fallback_status_of(err@),
{
    let mut s = String::from_str("Random.org failed; using OS randomness (");
    s.append(err);
    s.append(")");
    s
}

/// Whether the requirements of the word-based generators are met.
pub open spec fn pool_serves(settings: GenerationSettings, pool: WordPool) -> bool {
    &&& pool.size_fits()
    &&& (settings.mode == SecretMode::Passphrase && settings.passphrase_words > 0)
        ==> pool.all_words().len() > 0
}

/// What the secret of a generation satisfies: a password or passphrase as
/// the settings ask, or empty where none can be made.
pub open spec fn is_secret_for(settings: GenerationSettings, pool: WordPool, secret: Seq<char>) -> bool {
    match settings.mode {
        SecretMode::Password => if settings.charset.spec_pools().len() == 0 || settings.length == 0 {
            secret == Seq::<char>::empty()
        } else {
            is_password_for(settings.charset, settings.length as nat, secret)
        },
        SecretMode::Passphrase => if settings.passphrase_words == 0 {
            secret == Seq::<char>::empty()
        } else {
            is_passphrase_for(
                pool.all_words(),
                settings.passphrase_words as nat,
                settings.passphrase_separator,
                settings.passphrase_capitalize,
                secret,
            )
        },
    }
}

/// What the username of a generation satisfies: one as the settings ask,
/// or empty when none is wanted.
pub open spec fn is_user_for(settings: GenerationSettings, pool: WordPool, name: Seq<char>) -> bool {
    if settings.with_username {
        is_username_for(
            string_views(pool.adjectives@),
            string_views(pool.nouns@),
            settings.username_digits as nat,
            name,
        )
    } else {
        name == Seq::<char>::empty()
    }
}

/// The secret a generation draws from the generator state `rng`, with the
/// state afterwards: the password or passphrase, or empty where none can be
/// made.
pub open spec fn spec_secret(settings: GenerationSettings, pool: WordPool, rng: StdRng) -> (Seq<char>, StdRng) {
    match settings.mode {
        SecretMode::Password => {
            let p = spec_password(settings.charset, settings.length, rng);
            (
                match p.0 {
                    Some(pw) => pw,
                    None => Seq::empty(),
                },
                p.1,
            )
        },
        SecretMode::Passphrase => {
            let p = spec_passphrase(
                pool.all_words(),
                settings.passphrase_words,
                settings.passphrase_separator,
                settings.passphrase_capitalize,
                rng,
            );
            (
                match p.0 {
                    Some(phrase) => phrase,
                    None => Seq::empty(),
                },
                p.1,
            )
        },
    }
}

/// The secret and username a generation draws from the generator state
/// `rng`, in that order, with the state afterwards.
pub open spec fn spec_generated(settings: GenerationSettings, pool: WordPool, rng: StdRng) -> (
    Seq<char>,
    Seq<char>,
    StdRng,
) {
    let s = spec_secret(settings, pool, rng);
    if settings.with_username {
        let u = spec_username(
            string_views(pool.adjectives@),
            string_views(pool.nouns@),
            settings.username_digits,
            s.1,
        );
        (s.0, u.0, u.1)
    } else {
        (s.0, Seq::empty(), s.1)
    }
}

/// Whether `password` and `username` are what a generation draws from the
/// generator state `rng`.
pub open spec fn drawn_from(
    settings: GenerationSettings,
    pool: WordPool,
    rng: StdRng,
    password: Seq<char>,
    username: Seq<char>,
) -> bool {
    &&& password == spec_generated(settings, pool, rng).0
    &&& username == spec_generated(settings, pool, rng).1
}

/// The credentials of one generation drawn from `rng`, labelled with
/// `entropy_status`.
pub fn generate_with(
    settings: &GenerationSettings,
    pool: &WordPool,
    rng: &mut StdRng,
    entropy_status: String,
) -> (r: GeneratedCredentials)
    requires
        pool_serves(*settings, *pool),
    ensures
        is_secret_for(*settings, *pool, r.password@),
        is_user_for(*settings, *pool, r.username@),
        r.entropy_status@ == entropy_status@,
        drawn_from(*settings, *pool, *old(rng), r.password@, r.username@),
        *final(rng) == spec_generated(*settings, *pool, *old(rng)).2,
{
    let secret = match settings.mode {
        SecretMode::Password => match password(settings.charset, settings.length, rng) {
            Some(pw) => pw,
            None => String::new(),
        },
        SecretMode::Passphrase => match passphrase(
            pool,
            settings.passphrase_words,
            settings.passphrase_separator,
            settings.passphrase_capitalize,
            rng,
        ) {
            Some(phrase) => phrase,
            None => String::new(),
        },
    };
    let name = if settings.with_username {
        username(pool, settings.username_digits, rng)
    } else {
        String::new()
    };
    GeneratedCredentials { password: secret, username: name, entropy_status }
}

/// Where the credentials of a generation come from, and what its status
/// says. Random.org off: drawn from the OS generator `os_before`, which ends
/// at `os_after`. Remote seed failed: the same, with the failure and its
/// reason in the status. Remote seed had: drawn from the generator seeded
/// with the SHA-256 mix of 32 system bytes, the remote seed and the tag,
/// leaving the OS generator untouched, with the mixed status; or, when the
/// system could not add its bytes, drawn from the OS generator with that
/// failure in the status.
pub open spec fn credentials_outcome(
    settings: GenerationSettings,
    pool: WordPool,
    remote: Result<[u8; 32], String>,
    os_before: StdRng,
    os_after: StdRng,
    password: Seq<char>,
    username: Seq<char>,
    status: Seq<char>,
) -> bool {
    let from_os = drawn_from(settings, pool, os_before, password, username) && os_after
        == spec_generated(settings, pool, os_before).2;
    if !settings.use_random_org {
        from_os && status == os_status()
    } else {
        match remote {
            Err(err) => from_os && status == fallback_status_of(err@),
            Ok(seed) => {
                ||| status == mixed_status() && os_after == os_before && exists|local: Seq<u8>|
                    local.len() == 32 && drawn_from(
                        settings,
                        pool,
                        spec_std_rng_from_seed(#[trigger] spec_mixed_seed(local, seed@)),
                        password,
                        username,
                    )
                ||| from_os && exists|err: Seq<char>|
                    "OS RNG failed: "@.is_prefix_of(err) && status == #[trigger] fallback_status_of(
                        err,
                    )
            },
        }
    }
}

/// The credentials of a generation once the Random.org path has given its
/// generator, or why it could not: drawn from `mixed` with the mixed status,
/// leaving `os_rng` untouched; or drawn from `os_rng` with the failure and its
/// reason in the status.
pub fn generate_from_mix(
    settings: &GenerationSettings,
    pool: &WordPool,
    mixed: Result<StdRng, String>,
    os_rng: &mut StdRng,
) -> (r: GeneratedCredentials)
    requires
        pool_serves(*settings, *pool),
    ensures
        is_secret_for(*settings, *pool, r.password@),
        is_user_for(*settings, *pool, r.username@),
        mixed matches Ok(g) ==> {
            &&& drawn_from(*settings, *pool, g, r.password@, r.username@)
            &&& r.entropy_status@ == mixed_status()
            &&& *final(os_rng) == *old(os_rng)
        },
        mixed matches Err(e) ==> {
            &&& drawn_from(*settings, *pool, *old(os_rng), r.password@, r.username@)
            &&& *final(os_rng) == spec_generated(*settings, *pool, *old(os_rng)).2
            &&& r.entropy_status@ == fallback_status_of(e@)
        },
{
    match mixed {
        Ok(mut rng) => generate_with(
            settings,
            pool,
            &mut rng,
            String::from_str("Mixed Random.org with OS randomness"),
        ),
        Err(err) => generate_with(settings, pool, os_rng, fallback_status(err.as_str())),
    }
}

/// Generates credentials for `settings`. When the settings ask for
/// Random.org, `remote` is what fetching its seed gave (it is not read
/// otherwise); the remote seed is mixed with operating-system randomness,
/// never used alone. Without it, or when it failed, `os_rng` is drawn from.
pub fn generate_credentials(
    settings: &GenerationSettings,
    pool: &WordPool,
    remote: Result<[u8; 32], String>,
    os_rng: &mut StdRng,
) -> (r: GeneratedCredentials)
    requires
        pool_serves(*settings, *pool),
    ensures
        is_secret_for(*settings, *pool, r.password@),
        is_user_for(*settings, *pool, r.username@),
        credentials_outcome(
            *settings,
            *pool,
            remote,
            *old(os_rng),
            *final(os_rng),
            r.password@,
            r.username@,
            r.entropy_status@,
        ),
{
    if settings.use_random_org {
        match remote {
            Ok(seed) => {
                return generate_from_mix(settings, pool, random_org_rng(&seed), os_rng);
            },
            Err(err) => {
                return generate_with(settings, pool, os_rng, fallback_status(err.as_str()));
            },
        }
    }
    generate_with(settings, pool, os_rng, String::from_str("Using OS randomness"))
}

} // verus!
