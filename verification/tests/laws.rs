use credgen::charset::{ambiguous, keep, Charset, DIGITS, LOWERCASE, SYMBOLS, UPPERCASE};
use credgen::credentials::{
    fallback_status, generate_credentials, GenerationSettings, SecretMode,
};
use credgen::generator::{passphrase, password, pool_word, title_case, username};
use credgen::interface::{
    copy_feedback_step, masked, passphrase_separators, separator_label, strength_label,
    CredentialShape, FeedbackAction, RegenAction, RegenState,
};
use credgen::seed::{mix_seed, random_org_key, random_org_rng, seed_from_reply, RandomOrgReply};
use credgen::text::{decimal, digit_char, string_from_chars, trim_chars, white_space};
use credgen::wordlist::{join_words, words, WordPool};
use rand::rngs::{StdRng, SysRng};
use rand::SeedableRng;
use sha2::{Digest, Sha256};

fn rng() -> StdRng {
    StdRng::try_from_rng(&mut SysRng).unwrap()
}

fn pool() -> WordPool {
    WordPool::from_texts("brave\nquick\ncalm\n", "otter\nfalcon\nriver\n")
}

fn only(lowercase: bool, uppercase: bool, digits: bool, symbols: bool) -> Charset {
    Charset { lowercase, uppercase, digits, symbols, exclude_ambiguous: false }
}

#[test]
fn alphabet_sizes_follow_the_classes() {
    assert_eq!(Charset::default().alphabet_size(), 85);
    let strict = Charset { exclude_ambiguous: true, ..Charset::default() };
    assert_eq!(strict.alphabet_size(), 79);
    assert_eq!(only(true, false, false, false).alphabet_size(), 26);
    assert_eq!(only(false, false, true, false).alphabet_size(), 10);
    assert_eq!(only(false, false, false, true).alphabet_size(), 23);
    assert_eq!(only(false, false, false, false).alphabet_size(), 0);
    let digits_only = Charset { exclude_ambiguous: true, ..only(false, false, true, false) };
    assert_eq!(digits_only.alphabet_size(), 8);
}

#[test]
fn keep_drops_look_alikes_only_when_asked() {
    assert_eq!(keep(DIGITS, false), "0123456789".chars().collect::<Vec<_>>());
    assert_eq!(keep(DIGITS, true), "23456789".chars().collect::<Vec<_>>());
    assert_eq!(keep(LOWERCASE, true).len(), 24);
    assert!(ambiguous('l'));
    assert!(ambiguous('0'));
    assert!(!ambiguous('x'));
}

#[test]
fn password_characters_come_from_enabled_classes() {
    let mut rng = rng();
    let cs = Charset { exclude_ambiguous: true, ..only(false, true, true, false) };
    for _ in 0..50 {
        let pw = password(cs, 40, &mut rng).unwrap();
        assert_eq!(pw.chars().count(), 40);
        for c in pw.chars() {
            assert!(UPPERCASE.contains(c) || DIGITS.contains(c));
            assert!(!"Il1O0o".contains(c));
        }
    }
}

#[test]
fn password_holds_every_class_when_length_allows() {
    let mut rng = rng();
    for _ in 0..50 {
        let pw = password(Charset::default(), 4, &mut rng).unwrap();
        assert!(pw.chars().any(|c| LOWERCASE.contains(c)));
        assert!(pw.chars().any(|c| UPPERCASE.contains(c)));
        assert!(pw.chars().any(|c| DIGITS.contains(c)));
        assert!(pw.chars().any(|c| SYMBOLS.contains(c)));
    }
}

#[test]
fn password_with_one_slot_uses_the_first_class() {
    let mut rng = rng();
    for _ in 0..20 {
        let pw = password(Charset::default(), 1, &mut rng).unwrap();
        assert!(pw.chars().all(|c| LOWERCASE.contains(c)));
    }
}

#[test]
fn passphrase_splits_back_into_pool_words() {
    let mut rng = rng();
    let all = ["brave", "quick", "calm", "otter", "falcon", "river"];
    let phrase = passphrase(&pool(), 6, '_', false, &mut rng).unwrap();
    let parts: Vec<&str> = phrase.split('_').collect();
    assert_eq!(parts.len(), 6);
    assert!(parts.iter().all(|w| all.contains(w)));
    let capital = passphrase(&pool(), 3, '.', true, &mut rng).unwrap();
    let titled = ["Brave", "Quick", "Calm", "Otter", "Falcon", "River"];
    assert!(capital.split('.').all(|w| titled.contains(&w)));
}

#[test]
fn pool_word_draws_from_both_lists() {
    let mut rng = rng();
    let pool = pool();
    for _ in 0..30 {
        let w = pool_word(&pool, &mut rng);
        assert!(pool.adjectives.contains(w) || pool.nouns.contains(w));
    }
}

#[test]
fn word_lists_are_trimmed_non_empty_lines() {
    assert_eq!(words("  brave \r\n\n quick\n\t\ncalm"), vec!["brave", "quick", "calm"]);
    assert_eq!(words("otter\n"), vec!["otter"]);
    assert_eq!(words(""), Vec::<String>::new());
    assert_eq!(words("\n \n\u{3000}\n"), Vec::<String>::new());
    assert_eq!(words("ice cream\n"), vec!["ice cream"]);
}

#[test]
fn join_puts_the_separator_between_words() {
    let parts = vec![String::from("a"), String::from("bc"), String::from("d")];
    assert_eq!(join_words(&parts, '-'), "a-bc-d");
    assert_eq!(join_words(&vec![String::from("x")], '-'), "x");
    assert_eq!(join_words(&Vec::new(), '-'), "");
}

#[test]
fn title_case_follows_unicode_upper_case() {
    assert_eq!(title_case("ßtraße"), "SStraße");
    assert_eq!(title_case("élan"), "Élan");
    assert_eq!(title_case("1st"), "1st");
}

#[test]
fn username_falls_back_to_brave_otter() {
    let mut rng = rng();
    let empty = WordPool { adjectives: Vec::new(), nouns: Vec::new() };
    assert_eq!(username(&empty, 0, &mut rng), "BraveOtter");
    let name = username(&empty, 4, &mut rng);
    assert_eq!(name.len(), 14);
    assert!(name.starts_with("BraveOtter"));
    assert!(name[10..].chars().all(|c| c.is_ascii_digit()));
}

#[test]
fn username_is_adjective_then_noun() {
    let mut rng = rng();
    let name = username(&pool(), 0, &mut rng);
    let adjective = ["Brave", "Quick", "Calm"].iter().find(|a| name.starts_with(*a)).unwrap();
    let noun = &name[adjective.len()..];
    assert!(["Otter", "Falcon", "River"].contains(&noun));
}

#[test]
fn decimal_writes_usize_values() {
    assert_eq!(decimal(0), "0");
    assert_eq!(decimal(407), "407");
    assert_eq!(decimal(usize::MAX), usize::MAX.to_string());
    assert_eq!(digit_char(7), '7');
}

#[test]
fn text_helpers_trim_unicode_white_space() {
    let chars: Vec<char> = "\u{a0} key \t".chars().collect();
    assert_eq!(string_from_chars(&trim_chars(&chars)), "key");
    assert!(white_space('\u{2028}'));
    assert!(!white_space('x'));
}

fn reply(error: Option<&str>, data: Option<&str>) -> RandomOrgReply {
    RandomOrgReply {
        error_message: error.map(String::from),
        data: data.map(String::from),
    }
}

#[test]
fn reply_errors_are_reported() {
    assert_eq!(seed_from_reply(&reply(Some("bad key"), Some("00"))), Err(String::from("bad key")));
    assert_eq!(seed_from_reply(&reply(None, None)), Err(String::from("missing random data")));
    let invalid = seed_from_reply(&reply(None, Some("zz"))).unwrap_err();
    assert!(invalid.starts_with("invalid hex data: "));
    let odd = seed_from_reply(&reply(None, Some("abc"))).unwrap_err();
    assert!(odd.starts_with("invalid hex data: "));
    assert_eq!(
        seed_from_reply(&reply(None, Some("00ff"))),
        Err(String::from("expected 32 seed bytes, got 2"))
    );
}

#[test]
fn reply_seed_is_decoded() {
    let hex: String = (0..32).map(|i| format!("{:02X}", i * 7)).collect();
    let seed = seed_from_reply(&reply(None, Some(&hex))).unwrap();
    let expected: Vec<u8> = (0..32).map(|i| (i * 7) as u8).collect();
    assert_eq!(seed.to_vec(), expected);
}

#[test]
fn mixed_seed_is_sha256_of_both_seeds_and_tag() {
    let local = [1u8; 32];
    let remote = [2u8; 32];
    let mixed = mix_seed(&local, &remote);
    let expected: [u8; 32] = Sha256::new()
        .chain_update(local)
        .chain_update(remote)
        .chain_update(b"credential-generator-gui random.org seed v1")
        .finalize()
        .into();
    assert_eq!(mixed, expected);
    assert_ne!(mixed, remote);
    assert_ne!(mix_seed(&local, &[3u8; 32]), mixed);
}

#[test]
fn api_key_is_trimmed_or_missing() {
    assert_eq!(random_org_key("  key\n"), Ok(String::from("key")));
    assert_eq!(random_org_key("  "), Err(String::from("missing API key")));
    assert_eq!(random_org_key(""), Err(String::from("missing API key")));
}

#[test]
fn random_org_generator_is_seeded() {
    assert!(random_org_rng(&[9u8; 32]).is_ok());
}

#[test]
fn mixed_generation_reports_mixing() {
    let settings = GenerationSettings {
        mode: SecretMode::Passphrase,
        charset: Charset::default(),
        length: 20,
        passphrase_words: 3,
        passphrase_separator: '-',
        passphrase_capitalize: true,
        with_username: true,
        username_digits: 1,
        use_random_org: true,
        random_org_api_key: String::from("key"),
    };
    let credentials = generate_credentials(&settings, &pool(), Ok([5u8; 32]), &mut rng());
    assert_eq!(credentials.entropy_status, "Mixed Random.org with OS randomness");
    assert_eq!(credentials.password.split('-').count(), 3);
    assert!(credentials.username.chars().last().unwrap().is_ascii_digit());
    let failed = generate_credentials(&settings, &pool(), Err(String::from("HTTP error")), &mut rng());
    assert_eq!(failed.entropy_status, "Random.org failed; using OS randomness (HTTP error)");
    assert_eq!(fallback_status("x"), "Random.org failed; using OS randomness (x)");
}

#[test]
fn separators_have_labels() {
    assert_eq!(separator_label('-'), "- hyphen");
    assert_eq!(separator_label('_'), "_ underscore");
    assert_eq!(separator_label('.'), ". period");
    assert_eq!(separator_label(' '), "space");
    assert_eq!(separator_label('+'), "?");
    assert_eq!(passphrase_separators().len(), 4);
}

#[test]
fn strength_labels_have_their_boundaries() {
    assert_eq!(strength_label(0), "Weak");
    assert_eq!(strength_label(39), "Weak");
    assert_eq!(strength_label(40), "Fair");
    assert_eq!(strength_label(71), "Fair");
    assert_eq!(strength_label(72), "Strong");
    assert_eq!(strength_label(99), "Strong");
    assert_eq!(strength_label(100), "Very strong");
}

#[test]
fn masked_secret_has_one_bullet_per_character() {
    assert_eq!(masked("aé1"), "•••");
    assert_eq!(masked(""), "");
}

fn shape(length: usize) -> CredentialShape {
    CredentialShape {
        charset: Charset::default(),
        length,
        mode: SecretMode::Password,
        passphrase_words: 5,
        passphrase_separator: '-',
        passphrase_capitalize: true,
        with_username: true,
        username_digits: 0,
    }
}

#[test]
fn regeneration_waits_for_stable_settings() {
    let mut state = RegenState::new();
    assert_eq!(state.step(shape(20), 0, false), RegenAction::Idle);
    assert_eq!(state.step(shape(20), 100, false), RegenAction::Idle);
    // A change restarts the timer.
    assert_eq!(state.step(shape(21), 1000, false), RegenAction::RepaintAfter(350));
    assert_eq!(state.step(shape(22), 1200, false), RegenAction::RepaintAfter(350));
    assert_eq!(state.step(shape(22), 1500, false), RegenAction::RepaintAfter(50));
    // Stable long enough, but a generation is running.
    assert_eq!(state.step(shape(22), 1550, true), RegenAction::RepaintAfter(16));
    assert_eq!(state.step(shape(22), 1600, false), RegenAction::Start);
    assert_eq!(state.pending_since, None);
    assert_eq!(state.step(shape(22), 5000, false), RegenAction::Idle);
}

#[test]
fn copy_confirmation_expires() {
    assert_eq!(copy_feedback_step(0), FeedbackAction::RepaintAfter(1500));
    assert_eq!(copy_feedback_step(1499), FeedbackAction::RepaintAfter(1));
    assert_eq!(copy_feedback_step(1500), FeedbackAction::Expire);
}
