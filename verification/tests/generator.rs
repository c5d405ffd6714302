use credgen::charset::{Charset, AMBIGUOUS};
use credgen::generator::{passphrase, password, title_case, username};
use credgen::wordlist::WordPool;
use rand::rngs::{StdRng, SysRng};
use rand::SeedableRng;

fn rng() -> StdRng {
    StdRng::try_from_rng(&mut SysRng).unwrap()
}

fn pool() -> WordPool {
    WordPool::from_texts(
        "brave\nquick\ncalm\nbright\nsilent\nfierce\ngentle\nhappy\n",
        "otter\nfalcon\nriver\nmaple\nbadger\nharbor\ncomet\nwillow\n",
    )
}

#[test]
fn respects_length_and_alphabet() {
    let mut rng = rng();
    let cs = Charset::default();
    let pw = password(cs, 24, &mut rng).unwrap();
    assert_eq!(pw.chars().count(), 24);
    assert!(pw.chars().any(|c| c.is_ascii_lowercase()));
    assert!(pw.chars().any(|c| c.is_ascii_uppercase()));
    assert!(pw.chars().any(|c| c.is_ascii_digit()));
}

#[test]
fn no_classes_is_none() {
    let mut rng = rng();
    let cs = Charset {
        lowercase: false,
        uppercase: false,
        digits: false,
        symbols: false,
        exclude_ambiguous: false,
    };
    assert!(password(cs, 12, &mut rng).is_none());
}

#[test]
fn excludes_ambiguous() {
    let mut rng = rng();
    let cs = Charset {
        exclude_ambiguous: true,
        ..Charset::default()
    };
    for _ in 0..50 {
        let pw = password(cs, 32, &mut rng).unwrap();
        assert!(pw.chars().all(|c| !AMBIGUOUS.contains(c)));
    }
}

#[test]
fn passphrase_has_word_count_and_separator() {
    let mut rng = rng();
    let phrase = passphrase(&pool(), 4, '-', false, &mut rng).unwrap();
    let parts: Vec<&str> = phrase.split('-').collect();
    assert_eq!(parts.len(), 4);
    assert!(parts.iter().all(|w| !w.is_empty()));
    assert!(parts.iter().all(|w| w.chars().all(char::is_alphabetic)));
}

#[test]
fn passphrase_capitalizes_each_word() {
    let mut rng = rng();
    let phrase = passphrase(&pool(), 5, ' ', true, &mut rng).unwrap();
    for word in phrase.split(' ') {
        assert!(word.chars().next().unwrap().is_uppercase());
    }
}

#[test]
fn zero_word_passphrase_is_none() {
    let mut rng = rng();
    assert!(passphrase(&pool(), 0, '-', true, &mut rng).is_none());
}

#[test]
fn username_has_digit_suffix() {
    let mut rng = rng();
    let name = username(&pool(), 3, &mut rng);
    assert!(name.chars().rev().take(3).all(|c| c.is_ascii_digit()));
}

#[test]
fn username_without_suffix_is_alphabetic() {
    let mut rng = rng();
    let name = username(&pool(), 0, &mut rng);
    assert!(!name.is_empty());
    assert!(name.chars().all(|c| c.is_ascii_alphabetic()));
    assert!(name.chars().next().unwrap().is_ascii_uppercase());
}

#[test]
fn single_class_uses_only_that_class() {
    let mut rng = rng();
    let cs = Charset {
        lowercase: true,
        uppercase: false,
        digits: false,
        symbols: false,
        exclude_ambiguous: false,
    };
    let pw = password(cs, 16, &mut rng).unwrap();
    assert!(pw.chars().all(|c| c.is_ascii_lowercase()));
}

#[test]
fn length_below_class_count_is_honored() {
    let mut rng = rng();
    // Four classes enabled but only room for two characters.
    let pw = password(Charset::default(), 2, &mut rng).unwrap();
    assert_eq!(pw.chars().count(), 2);
}

#[test]
fn zero_length_is_none() {
    let mut rng = rng();
    assert!(password(Charset::default(), 0, &mut rng).is_none());
}

#[test]
fn title_case_capitalizes_first_only() {
    assert_eq!(title_case("brave"), "Brave");
    assert_eq!(title_case("OTTER"), "OTTER");
    assert_eq!(title_case(""), "");
}
