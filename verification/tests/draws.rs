use credgen::charset::Charset;
use credgen::credentials::{generate_with, GenerationSettings, SecretMode};
use credgen::generator::{passphrase, password, title_case, username};
use credgen::wordlist::WordPool;
use rand::rngs::StdRng;
use rand::SeedableRng;

fn seeded() -> StdRng {
    StdRng::from_seed([7u8; 32])
}

fn pool() -> WordPool {
    WordPool::from_texts("brave\nquick\ncalm\nbright\n", "otter\nfalcon\nriver\nmaple\n")
}

#[test]
fn no_password_leaves_the_generator_untouched() {
    let none = Charset {
        lowercase: false,
        uppercase: false,
        digits: false,
        symbols: false,
        exclude_ambiguous: false,
    };
    let mut rng = seeded();
    assert!(password(none, 12, &mut rng).is_none());
    assert!(password(Charset::default(), 0, &mut rng).is_none());
    assert!(rng == seeded());
}

#[test]
fn no_passphrase_leaves_the_generator_untouched() {
    let mut rng = seeded();
    assert!(passphrase(&pool(), 0, '-', true, &mut rng).is_none());
    assert!(rng == seeded());
}

#[test]
fn separator_and_capitals_add_no_entropy() {
    let mut a = seeded();
    let mut b = seeded();
    let plain = passphrase(&pool(), 6, '-', false, &mut a).unwrap();
    let styled = passphrase(&pool(), 6, ' ', true, &mut b).unwrap();
    let plain_titled: Vec<String> = plain.split('-').map(title_case).collect();
    let styled_words: Vec<String> = styled.split(' ').map(String::from).collect();
    assert_eq!(plain_titled, styled_words);
    assert!(a == b);
}

#[test]
fn equal_generators_draw_equal_credentials() {
    let mut a = seeded();
    let mut b = seeded();
    assert_eq!(password(Charset::default(), 30, &mut a), password(Charset::default(), 30, &mut b));
    assert_eq!(username(&pool(), 3, &mut a), username(&pool(), 3, &mut b));
    assert!(a == b);
    let settings = GenerationSettings {
        mode: SecretMode::Passphrase,
        charset: Charset::default(),
        length: 20,
        passphrase_words: 5,
        passphrase_separator: '.',
        passphrase_capitalize: true,
        with_username: true,
        username_digits: 2,
        use_random_org: false,
        random_org_api_key: String::new(),
    };
    let first = generate_with(&settings, &pool(), &mut a, String::from("s"));
    let second = generate_with(&settings, &pool(), &mut b, String::from("s"));
    assert_eq!(first.password, second.password);
    assert_eq!(first.username, second.username);
}
