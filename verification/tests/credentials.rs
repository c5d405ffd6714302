use credgen::charset::Charset;
use credgen::credentials::{generate_credentials, GenerationSettings, SecretMode};
use credgen::seed::random_org_key;
use credgen::wordlist::WordPool;
use rand::rngs::{StdRng, SysRng};
use rand::SeedableRng;

fn rng() -> StdRng {
    StdRng::try_from_rng(&mut SysRng).unwrap()
}

fn pool() -> WordPool {
    WordPool::from_texts(
        "brave\nquick\ncalm\nbright\n",
        "otter\nfalcon\nriver\nmaple\n",
    )
}

/// What fetching the Random.org seed gives when the key is checked first;
/// these tests never reach the network.
fn remote_for(settings: &GenerationSettings) -> Result<[u8; 32], String> {
    match random_org_key(&settings.random_org_api_key) {
        Ok(_) => panic!("a test key reached the network"),
        Err(err) => Err(err),
    }
}

#[test]
fn generate_credentials_uses_os_randomness() {
    let settings = GenerationSettings {
        mode: SecretMode::Password,
        charset: Charset::default(),
        length: 20,
        passphrase_words: 5,
        passphrase_separator: '-',
        passphrase_capitalize: true,
        with_username: true,
        username_digits: 2,
        use_random_org: false,
        random_org_api_key: String::new(),
    };
    let credentials =
        generate_credentials(&settings, &pool(), Err(String::new()), &mut rng());

    assert_eq!(credentials.password.chars().count(), 20);
    assert!(
        credentials
            .username
            .chars()
            .rev()
            .take(2)
            .all(|c| c.is_ascii_digit())
    );
    assert_eq!(credentials.entropy_status, "Using OS randomness");
}

#[test]
fn generate_credentials_in_passphrase_mode() {
    let settings = GenerationSettings {
        mode: SecretMode::Passphrase,
        charset: Charset::default(),
        length: 20,
        passphrase_words: 4,
        passphrase_separator: '.',
        passphrase_capitalize: false,
        with_username: false,
        username_digits: 0,
        use_random_org: false,
        random_org_api_key: String::new(),
    };
    let credentials =
        generate_credentials(&settings, &pool(), Err(String::new()), &mut rng());

    let words: Vec<&str> = credentials.password.split('.').collect();
    assert_eq!(words.len(), 4);
    assert!(words.iter().all(|w| !w.is_empty()));
}

#[test]
fn generate_credentials_falls_back_when_random_org_key_is_missing() {
    let settings = GenerationSettings {
        mode: SecretMode::Password,
        charset: Charset::default(),
        length: 16,
        passphrase_words: 5,
        passphrase_separator: '-',
        passphrase_capitalize: true,
        with_username: false,
        username_digits: 0,
        use_random_org: true,
        random_org_api_key: String::from("  "),
    };
    let remote = remote_for(&settings);
    let credentials = generate_credentials(&settings, &pool(), remote, &mut rng());

    assert_eq!(credentials.password.chars().count(), 16);
    assert!(credentials.username.is_empty());
    assert_eq!(
        credentials.entropy_status,
        "Random.org failed; using OS randomness (missing API key)"
    );
}
