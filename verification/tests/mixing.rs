use credgen::charset::Charset;
use credgen::credentials::{generate_from_mix, generate_with, GenerationSettings, SecretMode};
use credgen::seed::{mix_seed, seeded_from};
use credgen::wordlist::WordPool;
use rand::rngs::StdRng;
use rand::SeedableRng;

fn pool() -> WordPool {
    WordPool::from_texts("brave\nquick\ncalm\n", "otter\nfalcon\nriver\n")
}

fn settings() -> GenerationSettings {
    GenerationSettings {
        mode: SecretMode::Password,
        charset: Charset::default(),
        length: 24,
        passphrase_words: 4,
        passphrase_separator: '-',
        passphrase_capitalize: false,
        with_username: true,
        username_digits: 2,
        use_random_org: true,
        random_org_api_key: String::from("key"),
    }
}

#[test]
fn os_bytes_seed_the_mixed_generator() {
    let local = [4u8; 32];
    let remote = [8u8; 32];
    let rng = seeded_from(Ok(local), &remote).unwrap();
    assert!(rng == StdRng::from_seed(mix_seed(&local, &remote)));
    assert!(rng != StdRng::from_seed(remote));
}

#[test]
fn mixed_generator_is_the_one_drawn_from() {
    let mixed = StdRng::from_seed([3u8; 32]);
    let mut os = StdRng::from_seed([9u8; 32]);
    let got = generate_from_mix(&settings(), &pool(), Ok(mixed), &mut os);
    assert_eq!(got.entropy_status, "Mixed Random.org with OS randomness");
    assert!(os == StdRng::from_seed([9u8; 32]));
    let mut same = StdRng::from_seed([3u8; 32]);
    let expected = generate_with(&settings(), &pool(), &mut same, String::new());
    assert_eq!(got.password, expected.password);
    assert_eq!(got.username, expected.username);
}

#[test]
fn failed_mix_draws_from_the_os_generator() {
    let mut os = StdRng::from_seed([9u8; 32]);
    let got = generate_from_mix(&settings(), &pool(), Err(String::from("OS RNG failed: x")), &mut os);
    assert_eq!(got.entropy_status, "Random.org failed; using OS randomness (OS RNG failed: x)");
    let mut same = StdRng::from_seed([9u8; 32]);
    let expected = generate_with(&settings(), &pool(), &mut same, String::new());
    assert_eq!(got.password, expected.password);
    assert!(os == same);
}
