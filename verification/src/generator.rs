//! Credential generation: passwords from a configurable alphabet,
//! passphrases and memorable `AdjectiveNoun` usernames.

use crate::charset::{
    allowed, concat_pools, is_ambiguous, kept, push_if, views, Charset, DIGITS, LOWERCASE, SYMBOLS, UPPERCASE,
};
use crate::random::{
    choose_one, random_index, shuffle_all, spec_choose_draw, spec_range_draw, spec_shuffle_draw,
};
use crate::text::{ascii_upper, digit_char, digit_of, is_ascii_digit, join, push_char, spec_to_uppercase, string_from_chars, to_uppercase};
use crate::wordlist::{join_words, lemma_split_join, split_on, string_views, WordPool};
use rand::rngs::StdRng;
use vstd::prelude::*;

verus! {

/// What every password drawn for `charset` and `length` satisfies: it has
/// `length` characters, each from the combined alphabet, and it holds at
/// least one character of each of the first `length` enabled classes (so of
/// every enabled class when `length` allows).
pub open spec fn is_password_for(charset: Charset, length: nat, pw: Seq<char>) -> bool {
    &&& pw.len() == length
    &&& forall|i: int| 0 <= i < pw.len() ==> charset.spec_alphabet().contains(#[trigger] pw[i])
    &&& forall|k: int|
        0 <= k < charset.spec_pools().len() && k < length ==> has_char_from(
            pw,
            #[trigger] charset.spec_pools()[k],
        )
}

/// Whether `pw` holds at least one character of `pool`.
pub open spec fn has_char_from(pw: Seq<char>, pool: Seq<char>) -> bool {
    exists|j: int| 0 <= j < pw.len() && #[trigger] pool.contains(pw[j])
}

/// Every character of one of the pools is a character of the alphabet.
pub proof fn lemma_pool_char_in_alphabet(pools: Seq<Seq<char>>, k: int, c: char)
    requires
        0 <= k < pools.len(),
        pools[k].contains(c),
    ensures
        pools.flatten().contains(c),
    decreases pools.len(),
{
    let j = choose|j: int| 0 <= j < pools[k].len() && pools[k][j] == c;
    if k == 0 {
        assert(pools.flatten() == pools.first() + pools.drop_first().flatten());
        assert(pools.flatten()[j] == c);
    } else {
        lemma_pool_char_in_alphabet(pools.drop_first(), k - 1, c);
        assert(pools.flatten() == pools.first() + pools.drop_first().flatten());
        let i = choose|i: int| 0 <= i < pools.drop_first().flatten().len() && pools.drop_first().flatten()[i] == c;
        assert(pools.flatten()[pools.first().len() + i] == c);
    }
}

/// Reordering the characters of a draw keeps it a possible password: the
/// alphabet characters stay alphabet characters, and the character seeded
/// from each class is still somewhere in the result.
pub proof fn lemma_permuted_password(charset: Charset, length: nat, before: Seq<char>, after: Seq<char>)
    requires
        before.len() == length,
        after.to_multiset() == before.to_multiset(),
        forall|i: int| 0 <= i < before.len() ==> charset.spec_alphabet().contains(#[trigger] before[i]),
        forall|k: int|
            0 <= k < charset.spec_pools().len() && k < length ==> charset.spec_pools()[k].contains(
                #[trigger] before[k],
            ),
    ensures
        is_password_for(charset, length, after),
{
    let pools = charset.spec_pools();
    before.to_multiset_ensures();
    after.to_multiset_ensures();
    assert(after.len() == after.to_multiset().len());
    assert(before.len() == before.to_multiset().len());
    assert forall|i: int| 0 <= i < after.len() implies charset.spec_alphabet().contains(
        #[trigger] after[i],
    ) by {
        let x = after[i];
        assert(after.contains(x));
        assert(after.to_multiset().count(x) > 0);
        assert(before.to_multiset().count(x) > 0);
        assert(before.contains(x));
    }
    assert forall|k: int|
        0 <= k < pools.len() && k < length implies has_char_from(after, #[trigger] pools[k]) by {
        let x = before[k];
        assert(before.contains(x));
        assert(before.to_multiset().count(x) > 0);
        assert(after.to_multiset().count(x) > 0);
        assert(after.contains(x));
        let j = choose|j: int| 0 <= j < after.len() && after[j] == x;
        assert(pools[k].contains(after[j]));
    }
}

/// Whether `c` belongs to a class `charset` enables and survives its
/// ambiguity setting.
pub open spec fn in_enabled_class(charset: Charset, c: char) -> bool {
    &&& allowed(charset.exclude_ambiguous, c)
    &&& {
        ||| charset.lowercase && LOWERCASE@.contains(c)
        ||| charset.uppercase && UPPERCASE@.contains(c)
        ||| charset.digits && DIGITS@.contains(c)
        ||| charset.symbols && SYMBOLS@.contains(c)
    }
}

/// A character of a flattened list comes from one of its parts.
pub proof fn lemma_flatten_contains(pools: Seq<Seq<char>>, c: char) -> (k: int)
    requires
        pools.flatten().contains(c),
    ensures
        0 <= k < pools.len(),
        pools[k].contains(c),
    decreases pools.len(),
{
    assert(pools.flatten() == pools.first() + pools.drop_first().flatten());
    let j = choose|j: int| 0 <= j < pools.flatten().len() && pools.flatten()[j] == c;
    if j < pools.first().len() {
        assert(pools.first()[j] == c);
        0
    } else {
        assert(pools.drop_first().flatten()[j - pools.first().len()] == c);
        let k = lemma_flatten_contains(pools.drop_first(), c);
        k + 1
    }
}

/// A character kept from `class` is in `class` and allowed.
proof fn lemma_kept_contains(class: Seq<char>, e: bool, c: char)
    requires
        kept(class, e).contains(c),
    ensures
        class.contains(c),
        allowed(e, c),
{
    let f = |c: char| allowed(e, c);
    class.lemma_filter_contains_rev(f, c);
    let i = choose|i: int| 0 <= i < class.filter(f).len() && class.filter(f)[i] == c;
    class.lemma_filter_pred(f, i);
}

/// Every character of the alphabet belongs to an enabled class and
/// survives the ambiguity filter.
pub proof fn lemma_alphabet_in_enabled_classes(charset: Charset, c: char)
    requires
        charset.spec_alphabet().contains(c),
    ensures
        in_enabled_class(charset, c),
{
    let e = charset.exclude_ambiguous;
    let pools = charset.spec_pools();
    let k = lemma_flatten_contains(pools, c);
    let p1 = push_if(Seq::empty(), charset.lowercase, kept(LOWERCASE@, e));
    let p2 = push_if(p1, charset.uppercase, kept(UPPERCASE@, e));
    let p3 = push_if(p2, charset.digits, kept(DIGITS@, e));
    let p4 = push_if(p3, charset.symbols, kept(SYMBOLS@, e));
    assert(pools == p4);
    if k == p4.len() - 1 && charset.symbols && kept(SYMBOLS@, e).len() > 0 {
        lemma_kept_contains(SYMBOLS@, e, c);
    } else if k == p3.len() - 1 && charset.digits && kept(DIGITS@, e).len() > 0 {
        assert(p4[k] == p3[k]);
        lemma_kept_contains(DIGITS@, e, c);
    } else if k == p2.len() - 1 && charset.uppercase && kept(UPPERCASE@, e).len() > 0 {
        assert(p4[k] == p3[k]);
        assert(p3[k] == p2[k]);
        lemma_kept_contains(UPPERCASE@, e, c);
    } else {
        assert(p4[k] == p3[k]);
        assert(p3[k] == p2[k]);
        assert(p2[k] == p1[k]);
        lemma_kept_contains(LOWERCASE@, e, c);
    }
}

/// Every character of a password comes from an enabled class, and none is
/// a look-alike when look-alikes are excluded.
pub proof fn lemma_password_in_enabled_classes(charset: Charset, length: nat, pw: Seq<char>)
    requires
        is_password_for(charset, length, pw),
    ensures
        forall|i: int| 0 <= i < pw.len() ==> in_enabled_class(charset, #[trigger] pw[i]),
        charset.exclude_ambiguous ==> forall|i: int| 0 <= i < pw.len() ==> !is_ambiguous(#[trigger] pw[i]),
{
    assert forall|i: int| 0 <= i < pw.len() implies in_enabled_class(charset, #[trigger] pw[i]) by {
        lemma_alphabet_in_enabled_classes(charset, pw[i]);
    }
}

/// One character drawn from each of the first `n` pools, in order, starting
/// from the generator state `rng`, and the state afterwards.
pub open spec fn class_draws(pools: Seq<Seq<char>>, n: nat, rng: StdRng) -> (Seq<char>, StdRng)
    decreases n,
{
    if n == 0 {
        (Seq::empty(), rng)
    } else {
        let prev = class_draws(pools, (n - 1) as nat, rng);
        let d = spec_choose_draw(pools[n - 1].len() as usize, prev.1);
        (prev.0.push(pools[n - 1][d.0 as int]), d.1)
    }
}

/// `n` characters drawn one after another from `alphabet`, starting from
/// the generator state `rng`, and the state afterwards.
pub open spec fn alphabet_draws(alphabet: Seq<char>, n: nat, rng: StdRng) -> (Seq<char>, StdRng)
    decreases n,
{
    if n == 0 {
        (Seq::empty(), rng)
    } else {
        let prev = alphabet_draws(alphabet, (n - 1) as nat, rng);
        let d = spec_choose_draw(alphabet.len() as usize, prev.1);
        (prev.0.push(alphabet[d.0 as int]), d.1)
    }
}

/// The number of classes a password of `length` seeds one character from.
pub open spec fn seeded_count(pools: Seq<Seq<char>>, length: usize) -> nat {
    if pools.len() < length {
        pools.len()
    } else {
        length as nat
    }
}

/// The characters a password draws before its shuffle: one per class as
/// far as `length` allows, then the rest from the whole alphabet.
pub open spec fn unshuffled_draws(charset: Charset, length: usize, rng: StdRng) -> (Seq<char>, StdRng) {
    let pools = charset.spec_pools();
    let seeded = seeded_count(pools, length);
    let a = class_draws(pools, seeded, rng);
    let b = alphabet_draws(charset.spec_alphabet(), (length - seeded) as nat, a.1);
    (a.0 + b.0, b.1)
}

/// The password `password` draws from the generator state `rng`, with the
/// state afterwards: `None`, the generator untouched, when no class is
/// enabled or `length` is 0; otherwise the draws, shuffled.
pub open spec fn spec_password(charset: Charset, length: usize, rng: StdRng) -> (Option<Seq<char>>, StdRng) {
    if charset.spec_pools().len() == 0 || length == 0 {
        (None, rng)
    } else {
        let u = unshuffled_draws(charset, length, rng);
        let s = spec_shuffle_draw(length, u.1);
        (Some(Seq::new(length as nat, |i: int| u.0[s.0[i]])), s.1)
    }
}

/// Whether `c` is what one draw from `pool` gives, from some generator
/// state.
pub open spec fn is_draw_from(pool: Seq<char>, c: char) -> bool {
    exists|t: StdRng| c == pool[#[trigger] spec_choose_draw(pool.len() as usize, t).0 as int]
}

/// `u` reordered by the shuffle the generator state `s` makes of `length`
/// elements.
pub open spec fn shuffled_of(u: Seq<char>, s: StdRng, length: usize) -> Seq<char> {
    Seq::new(length as nat, |i: int| u[spec_shuffle_draw(length, s).0[i]])
}

/// Every character `class_draws` gives is a draw from its own class.
proof fn lemma_class_draws_are_draws(pools: Seq<Seq<char>>, n: nat, rng: StdRng)
    requires
        n <= pools.len(),
    ensures
        class_draws(pools, n, rng).0.len() == n,
        forall|j: int| 0 <= j < n ==> is_draw_from(pools[j], #[trigger] class_draws(pools, n, rng).0[j]),
    decreases n,
{
    if n > 0 {
        let prev = class_draws(pools, (n - 1) as nat, rng);
        lemma_class_draws_are_draws(pools, (n - 1) as nat, rng);
        let cur = class_draws(pools, n, rng).0;
        assert forall|j: int| 0 <= j < n implies is_draw_from(pools[j], #[trigger] cur[j]) by {
            if j < n - 1 {
                assert(cur[j] == prev.0[j]);
            } else {
                let t = prev.1;
                assert(cur[j] == pools[j][spec_choose_draw(pools[j].len() as usize, t).0 as int]);
            }
        }
    }
}

/// Every character `alphabet_draws` gives is a draw from the alphabet.
proof fn lemma_alphabet_draws_are_draws(alphabet: Seq<char>, n: nat, rng: StdRng)
    ensures
        alphabet_draws(alphabet, n, rng).0.len() == n,
        forall|j: int| 0 <= j < n ==> is_draw_from(alphabet, #[trigger] alphabet_draws(alphabet, n, rng).0[j]),
    decreases n,
{
    if n > 0 {
        let prev = alphabet_draws(alphabet, (n - 1) as nat, rng);
        lemma_alphabet_draws_are_draws(alphabet, (n - 1) as nat, rng);
        let cur = alphabet_draws(alphabet, n, rng).0;
        assert forall|j: int| 0 <= j < n implies is_draw_from(alphabet, #[trigger] cur[j]) by {
            if j < n - 1 {
                assert(cur[j] == prev.0[j]);
            } else {
                let t = prev.1;
                assert(cur[j] == alphabet[spec_choose_draw(alphabet.len() as usize, t).0 as int]);
            }
        }
    }
}

/// What a password is made of: a shuffle of `length` draws, the first from
/// each enabled class in turn (as many classes as `length` allows), every
/// other one from the whole combined alphabet; and the generator ends where
/// the shuffle leaves it.
pub proof fn lemma_password_composition(charset: Charset, length: usize, rng: StdRng)
    requires
        charset.spec_pools().len() > 0,
        length > 0,
    ensures
        exists|u: Seq<char>, s: StdRng|
            {
                &&& u.len() == length
                &&& spec_password(charset, length, rng).0 == Some(#[trigger] shuffled_of(u, s, length))
                &&& spec_password(charset, length, rng).1 == spec_shuffle_draw(length, s).1
                &&& forall|j: int|
                    0 <= j < length && j < charset.spec_pools().len() ==> is_draw_from(
                        charset.spec_pools()[j],
                        #[trigger] u[j],
                    )
                &&& forall|j: int|
                    0 <= j < length && j >= charset.spec_pools().len() ==> is_draw_from(
                        charset.spec_alphabet(),
                        #[trigger] u[j],
                    )
            },
{
    let pools = charset.spec_pools();
    let seeded = seeded_count(pools, length);
    let a = class_draws(pools, seeded, rng);
    let b = alphabet_draws(charset.spec_alphabet(), (length - seeded) as nat, a.1);
    lemma_class_draws_are_draws(pools, seeded, rng);
    lemma_alphabet_draws_are_draws(charset.spec_alphabet(), (length - seeded) as nat, a.1);
    let u = a.0 + b.0;
    let s = b.1;
    assert(unshuffled_draws(charset, length, rng) == (u, s));
    assert(spec_password(charset, length, rng).0 == Some(shuffled_of(u, s, length)));
    assert forall|j: int| 0 <= j < length && j < pools.len() implies is_draw_from(pools[j], #[trigger] u[j]) by {
        assert(u[j] == a.0[j]);
    }
    assert forall|j: int| 0 <= j < length && j >= pools.len() implies is_draw_from(
        charset.spec_alphabet(),
        #[trigger] u[j],
    ) by {
        assert(u[j] == b.0[j - seeded]);
    }
}

/// Generate a password of `length` characters drawing from the enabled
/// classes. Guarantees at least one character from each enabled class (as
/// far as `length` allows). Returns `None` if no class is enabled or
/// `length` is 0.
pub fn password(charset: Charset, length: usize, rng: &mut StdRng) -> (r: Option<String>)
    ensures
        r is None <==> (charset.spec_pools().len() == 0 || length == 0),
        r matches Some(pw) ==> is_password_for(charset, length as nat, pw@),
        r matches Some(pw) ==> spec_password(charset, length, *old(rng)).0 == Some(pw@),
        *final(rng) == spec_password(charset, length, *old(rng)).1,
{
    let pools = charset.pools();
    if pools.len() == 0 || length == 0 {
        return None;
    }
    let alphabet = concat_pools(&pools);
    let ghost spools = charset.spec_pools();
    proof {
        // The first pool is not empty, so neither is the alphabet.
        charset.lemma_pools_nonempty();
        lemma_pool_char_in_alphabet(spools, 0, spools[0][0]);
    }
    let mut out: Vec<char> = Vec::with_capacity(length);
    let ghost rng0 = *rng;

    // Seed one character per class so requirements are met, then fill the
    // rest from the whole alphabet and shuffle to hide that ordering.
    let seeded = if pools.len() < length { pools.len() } else { length };
    for k in 0..seeded
        invariant
            seeded <= pools@.len(),
            seeded <= length,
            views(pools@) == spools,
            alphabet@ == spools.flatten(),
            out@.len() == k,
            forall|i: int| 0 <= i < spools.len() ==> #[trigger] spools[i].len() > 0,
            forall|i: int| 0 <= i < k ==> spools[i].contains(#[trigger] out@[i]),
            forall|i: int| 0 <= i < k ==> alphabet@.contains(#[trigger] out@[i]),
            class_draws(spools, k as nat, rng0) == (out@, *rng),
    {
        let pool = &pools[k];
        assert(pool@ == spools[k as int]);
        assert(pool@.len() > 0);
        let c = *choose_one(pool.as_slice(), rng).unwrap();
        proof {
            lemma_pool_char_in_alphabet(spools, k as int, c);
        }
        let ghost prev = out@;
        out.push(c);
        proof {
            assert(class_draws(spools, (k + 1) as nat, rng0).0 =~= prev.push(c));
        }
    }
    while out.len() < length
        invariant
            seeded <= pools@.len(),
            seeded <= length,
            views(pools@) == spools,
            alphabet@ == spools.flatten(),
            alphabet@.len() > 0,
            seeded <= out@.len() <= length,
            forall|i: int| 0 <= i < seeded ==> spools[i].contains(#[trigger] out@[i]),
            forall|i: int| 0 <= i < out@.len() ==> alphabet@.contains(#[trigger] out@[i]),
            seeded == seeded_count(spools, length),
            ({
                let a = class_draws(spools, seeded as nat, rng0);
                let b = alphabet_draws(spools.flatten(), (out@.len() - seeded) as nat, a.1);
                out@ == a.0 + b.0 && *rng == b.1
            }),
        decreases length - out@.len(),
    {
        let ghost prev = out@;
        let c = *choose_one(alphabet.as_slice(), rng).unwrap();
        out.push(c);
        proof {
            let a = class_draws(spools, seeded as nat, rng0);
            let n = (out@.len() - seeded) as nat;
            assert(alphabet_draws(spools.flatten(), n, a.1).0 == alphabet_draws(
                spools.flatten(),
                (n - 1) as nat,
                a.1,
            ).0.push(c));
            assert(out@ =~= a.0 + alphabet_draws(spools.flatten(), n, a.1).0);
        }
    }
    let ghost before = out@;
    let ghost rng1 = *rng;
    proof {
        assert(before == unshuffled_draws(charset, length, rng0).0);
        assert(rng1 == unshuffled_draws(charset, length, rng0).1);
    }
    shuffle_all(&mut out, rng);
    proof {
        lemma_permuted_password(charset, length as nat, before, out@);
        assert(out@ =~= Seq::new(length as nat, |i: int| before[spec_shuffle_draw(length, rng1).0[i]]));
    }
    Some(string_from_chars(&out))
}

/// `word` with its first character upper-cased and the rest unchanged.
pub open spec fn title(word: Seq<char>) -> Seq<char> {
    if word.len() == 0 {
        Seq::empty()
    } else {
        spec_to_uppercase(word[0]) + word.drop_first()
    }
}

/// Upper-cases the first character of `word`, leaving the rest unchanged.
pub fn title_case(word: &str) -> (r: String)
    ensures
        r@ == title(word@),
        word@.len() > 0 && (word@[0] as int) < 128 ==> r@ == seq![ascii_upper(word@[0])]
            + word@.drop_first(),
{
    let mut out = String::new();
    let mut first = true;
    for c in it: word.chars()
        invariant
            it.seq() == word@,
            first == (it.index() == 0),
            it.index() > 0 && (word@[0] as int) < 128 ==> spec_to_uppercase(word@[0]) == seq![
                ascii_upper(word@[0]),
            ],
            it.index() == 0 ==> out@ == Seq::<char>::empty(),
            it.index() > 0 ==> out@ == spec_to_uppercase(word@[0]) + word@.subrange(
                1,
                it.index() as int,
            ),
    {
        let ghost i = it.index() as int;
        if first {
            first = false;
            let upper = to_uppercase(c);
            let m = upper.len();
            for j in 0..m
                invariant
                    m == upper@.len(),
                    out@ == upper@.take(j as int),
            {
                proof {
                    assert(upper@.take(j + 1) =~= upper@.take(j as int).push(upper@[j as int]));
                }
                push_char(&mut out, upper[j]);
            }
            proof {
                assert(upper@.take(m as int) =~= upper@);
                assert(word@.subrange(1, 1) =~= Seq::<char>::empty());
                assert(out@ =~= spec_to_uppercase(word@[0]) + word@.subrange(1, 1));
            }
        } else {
            let ghost prev = out@;
            push_char(&mut out, c);
            proof {
                assert(word@.subrange(1, i + 1) =~= word@.subrange(1, i).push(c));
                assert(out@ =~= spec_to_uppercase(word@[0]) + word@.subrange(1, i + 1));
            }
        }
    }
    proof {
        if word@.len() > 0 {
            assert(word@.subrange(1, word@.len() as int) =~= word@.drop_first());
        }
    }
    out
}

/// One word drawn from the combined adjective + noun pool.
pub fn pool_word<'a>(pool: &'a WordPool, rng: &mut StdRng) -> (r: &'a String)
    requires
        pool.size_fits(),
        pool.all_words().len() > 0,
    ensures
        pool.all_words().contains(r@),
        r@ == pool.all_words()[spec_range_draw(pool.all_words().len() as usize, *old(rng)).0 as int],
        *final(rng) == spec_range_draw(pool.all_words().len() as usize, *old(rng)).1,
{
    let index = random_index(rng, pool.size());
    if index < pool.adjectives.len() {
        let w = &pool.adjectives[index];
        assert(pool.all_words()[index as int] == w@);
        w
    } else {
        let w = &pool.nouns[index - pool.adjectives.len()];
        assert(pool.all_words()[index as int] == w@);
        w
    }
}

/// A passphrase word: the pool word itself, or its title case.
pub open spec fn styled(word: Seq<char>, capitalize: bool) -> Seq<char> {
    if capitalize {
        title(word)
    } else {
        word
    }
}

/// Whether `part` is a pool word, styled as asked.
pub open spec fn is_phrase_word(pool_words: Seq<Seq<char>>, capitalize: bool, part: Seq<char>) -> bool {
    exists|k: int| 0 <= k < pool_words.len() && part == styled(#[trigger] pool_words[k], capitalize)
}

/// Whether `parts` are `count` pool words, each styled as asked.
pub open spec fn are_phrase_words(
    pool_words: Seq<Seq<char>>,
    capitalize: bool,
    count: nat,
    parts: Seq<Seq<char>>,
) -> bool {
    &&& parts.len() == count
    &&& forall|i: int| 0 <= i < parts.len() ==> is_phrase_word(pool_words, capitalize, #[trigger] parts[i])
}

/// What every passphrase of `count` words satisfies: it is `count` pool
/// words, each styled as asked, joined by `separator`.
pub open spec fn is_passphrase_for(
    pool_words: Seq<Seq<char>>,
    count: nat,
    separator: char,
    capitalize: bool,
    phrase: Seq<char>,
) -> bool {
    exists|parts: Seq<Seq<char>>|
        #[trigger] are_phrase_words(pool_words, capitalize, count, parts) && phrase == join(
            parts,
            separator,
        )
}

/// `n` draws below `bound` one after another, starting from the generator
/// state `rng`, and the state afterwards.
pub open spec fn range_draws(bound: usize, n: nat, rng: StdRng) -> (Seq<usize>, StdRng)
    decreases n,
{
    if n == 0 {
        (Seq::empty(), rng)
    } else {
        let prev = range_draws(bound, (n - 1) as nat, rng);
        let d = spec_range_draw(bound, prev.1);
        (prev.0.push(d.0), d.1)
    }
}

/// `n` draws give `n` values.
pub proof fn lemma_range_draws(bound: usize, n: nat, rng: StdRng)
    ensures
        range_draws(bound, n, rng).0.len() == n,
    decreases n,
{
    if n > 0 {
        lemma_range_draws(bound, (n - 1) as nat, rng);
    }
}

/// The `count` pool words a passphrase draws from the generator state
/// `rng`, before styling and joining.
pub open spec fn drawn_words(pool_words: Seq<Seq<char>>, count: nat, rng: StdRng) -> Seq<Seq<char>> {
    let d = range_draws(pool_words.len() as usize, count, rng);
    Seq::new(count, |i: int| pool_words[d.0[i] as int])
}

/// The passphrase `passphrase` draws from the generator state `rng`, with
/// the state afterwards: `None`, the generator untouched, for 0 words;
/// otherwise the drawn words, styled, joined by `separator`.
pub open spec fn spec_passphrase(
    pool_words: Seq<Seq<char>>,
    count: usize,
    separator: char,
    capitalize: bool,
    rng: StdRng,
) -> (Option<Seq<char>>, StdRng) {
    if count == 0 {
        (None, rng)
    } else {
        (
            Some(
                join(
                    drawn_words(pool_words, count as nat, rng).map_values(
                        |w: Seq<char>| styled(w, capitalize),
                    ),
                    separator,
                ),
            ),
            range_draws(pool_words.len() as usize, count as nat, rng).1,
        )
    }
}

/// Separator and capitalization add no entropy: from equal generator
/// states, passphrases of the same length draw the same words and leave the
/// generator in the same state, whatever separator and styling they use.
pub proof fn lemma_style_adds_no_entropy(
    pool_words: Seq<Seq<char>>,
    count: usize,
    separator1: char,
    capitalize1: bool,
    separator2: char,
    capitalize2: bool,
    rng: StdRng,
)
    requires
        count > 0,
    ensures
        spec_passphrase(pool_words, count, separator1, capitalize1, rng).1 == spec_passphrase(
            pool_words,
            count,
            separator2,
            capitalize2,
            rng,
        ).1,
        spec_passphrase(pool_words, count, separator1, capitalize1, rng).0 == Some(
            join(
                drawn_words(pool_words, count as nat, rng).map_values(
                    |w: Seq<char>| styled(w, capitalize1),
                ),
                separator1,
            ),
        ),
        spec_passphrase(pool_words, count, separator2, capitalize2, rng).0 == Some(
            join(
                drawn_words(pool_words, count as nat, rng).map_values(
                    |w: Seq<char>| styled(w, capitalize2),
                ),
                separator2,
            ),
        ),
{
}

/// Joining one more part adds the separator and the part at the end.
proof fn lemma_join_push(parts: Seq<Seq<char>>, part: Seq<char>, sep: char)
    requires
        parts.len() > 0,
    ensures
        join(parts.push(part), sep) == join(parts, sep).push(sep) + part,
{
    assert(parts.push(part).drop_last() =~= parts);
    assert(parts.push(part).last() == part);
}

/// A one-word passphrase is the pool word at one draw over the pool size,
/// styled as asked; the generator ends where that draw leaves it.
pub proof fn lemma_passphrase_first_word(
    pool_words: Seq<Seq<char>>,
    separator: char,
    capitalize: bool,
    rng: StdRng,
)
    ensures
        spec_passphrase(pool_words, 1, separator, capitalize, rng) == (
            Some(
                styled(
                    pool_words[spec_range_draw(pool_words.len() as usize, rng).0 as int],
                    capitalize,
                ),
            ),
            spec_range_draw(pool_words.len() as usize, rng).1,
        ),
{
    let d = range_draws(pool_words.len() as usize, 1, rng);
    assert(range_draws(pool_words.len() as usize, 0, rng).0 =~= Seq::<usize>::empty());
    assert(d.0 =~= seq![spec_range_draw(pool_words.len() as usize, rng).0]);
    let words = drawn_words(pool_words, 1, rng).map_values(|w: Seq<char>| styled(w, capitalize));
    assert(words.len() == 1);
}

/// One more word draws once more over the pool size, from the state the
/// shorter passphrase left the generator in, and appends the separator and
/// that word: each word is its own draw.
pub proof fn lemma_passphrase_next_word(
    pool_words: Seq<Seq<char>>,
    count: usize,
    separator: char,
    capitalize: bool,
    rng: StdRng,
)
    requires
        count >= 1,
        count < usize::MAX,
    ensures
        ({
            let prev = spec_passphrase(pool_words, count, separator, capitalize, rng);
            let d = spec_range_draw(pool_words.len() as usize, prev.1);
            spec_passphrase(pool_words, (count + 1) as usize, separator, capitalize, rng) == (
                Some(
                    prev.0.unwrap().push(separator) + styled(pool_words[d.0 as int], capitalize),
                ),
                d.1,
            )
        }),
{
    let bound = pool_words.len() as usize;
    let f = |w: Seq<char>| styled(w, capitalize);
    let prev_draws = range_draws(bound, count as nat, rng);
    let next_draws = range_draws(bound, (count + 1) as nat, rng);
    lemma_range_draws(bound, count as nat, rng);
    let d = spec_range_draw(bound, prev_draws.1);
    assert(next_draws.0 == prev_draws.0.push(d.0));
    let old_words = drawn_words(pool_words, count as nat, rng).map_values(f);
    let new_words = drawn_words(pool_words, (count + 1) as nat, rng).map_values(f);
    assert(new_words =~= old_words.push(styled(pool_words[d.0 as int], capitalize))) by {
        assert forall|j: int| 0 <= j < count implies new_words[j] == old_words[j] by {
            assert(next_draws.0[j] == prev_draws.0[j]);
        }
    }
    lemma_join_push(old_words, styled(pool_words[d.0 as int], capitalize), separator);
}

/// Cutting a passphrase at its separator gives back its words, as many as
/// were asked, when no styled pool word holds the separator itself.
pub proof fn lemma_passphrase_splits(
    pool_words: Seq<Seq<char>>,
    count: nat,
    separator: char,
    capitalize: bool,
    phrase: Seq<char>,
)
    requires
        count > 0,
        is_passphrase_for(pool_words, count, separator, capitalize, phrase),
        forall|k: int|
            0 <= k < pool_words.len() ==> !styled(#[trigger] pool_words[k], capitalize).contains(
                separator,
            ),
    ensures
        split_on(phrase, separator).len() == count,
        forall|i: int|
            0 <= i < count ==> is_phrase_word(
                pool_words,
                capitalize,
                #[trigger] split_on(phrase, separator)[i],
            ),
{
    let parts = choose|parts: Seq<Seq<char>>|
        #[trigger] are_phrase_words(pool_words, capitalize, count, parts) && phrase == join(
            parts,
            separator,
        );
    assert forall|i: int| 0 <= i < parts.len() implies !(#[trigger] parts[i]).contains(separator) by {
        assert(is_phrase_word(pool_words, capitalize, parts[i]));
        let k = choose|k: int|
            0 <= k < pool_words.len() && parts[i] == styled(#[trigger] pool_words[k], capitalize);
    }
    lemma_split_join(parts, separator);
}

/// A Diceware-style passphrase of `words` words drawn uniformly from the
/// combined word pool, joined by `separator`. Returns `None` if `words` is
/// 0. Capitalization is applied uniformly and adds no entropy.
pub fn passphrase(pool: &WordPool, words: usize, separator: char, capitalize: bool, rng: &mut StdRng) -> (r: Option<String>)
    requires
        pool.size_fits(),
        words > 0 ==> pool.all_words().len() > 0,
    ensures
        r is None <==> words == 0,
        r matches Some(phrase) ==> is_passphrase_for(
            pool.all_words(),
            words as nat,
            separator,
            capitalize,
            phrase@,
        ),
        r matches Some(phrase) ==> spec_passphrase(
            pool.all_words(),
            words,
            separator,
            capitalize,
            *old(rng),
        ).0 == Some(phrase@),
        *final(rng) == spec_passphrase(pool.all_words(), words, separator, capitalize, *old(rng)).1,
{
    if words == 0 {
        return None;
    }
    let ghost rng0 = *rng;
    let ghost bound = pool.all_words().len() as usize;
    let mut parts: Vec<String> = Vec::new();
    for i in 0..words
        invariant
            pool.size_fits(),
            pool.all_words().len() > 0,
            bound == pool.all_words().len() as usize,
            are_phrase_words(pool.all_words(), capitalize, i as nat, string_views(parts@)),
            string_views(parts@) == drawn_words(pool.all_words(), i as nat, rng0).map_values(
                |w: Seq<char>| styled(w, capitalize),
            ),
            *rng == range_draws(bound, i as nat, rng0).1,
    {
        let ghost before = *rng;
        let word = pool_word(pool, rng);
        let part = if capitalize {
            title_case(word.as_str())
        } else {
            word.clone()
        };
        let ghost prev = parts@;
        parts.push(part);
        proof {
            assert(string_views(parts@) =~= string_views(prev).push(part@));
            let k = choose|k: int| 0 <= k < pool.all_words().len() && pool.all_words()[k] == word@;
            assert(is_phrase_word(pool.all_words(), capitalize, part@));
            let prev_draws = range_draws(bound, i as nat, rng0);
            lemma_range_draws(bound, i as nat, rng0);
            let next_draws = range_draws(bound, (i + 1) as nat, rng0);
            assert(next_draws.0 == prev_draws.0.push(spec_range_draw(bound, before).0));
            assert(part@ == styled(word@, capitalize));
            assert(word@ == pool.all_words()[spec_range_draw(bound, before).0 as int]);
            let f = |w: Seq<char>| styled(w, capitalize);
            let old_words = drawn_words(pool.all_words(), i as nat, rng0);
            let new_words = drawn_words(pool.all_words(), (i + 1) as nat, rng0);
            assert forall|j: int| 0 <= j < i implies new_words[j] == old_words[j] by {
                assert(next_draws.0[j] == prev_draws.0[j]);
            }
            assert(new_words[i as int] == word@);
            assert(string_views(prev) == old_words.map_values(f));
            assert forall|j: int| 0 <= j <= i implies string_views(parts@)[j] == new_words.map_values(f)[j] by {
                if j < i {
                    assert(string_views(parts@)[j] == string_views(prev)[j]);
                }
            }
            assert(string_views(parts@) =~= drawn_words(pool.all_words(), (i + 1) as nat, rng0).map_values(
                |w: Seq<char>| styled(w, capitalize),
            ));
        }
    }
    let phrase = join_words(&parts, separator);
    proof {
        assert(are_phrase_words(pool.all_words(), capitalize, words as nat, string_views(parts@)));
    }
    Some(phrase)
}


/// A word drawn from `words`, or `fallback` when the list is empty.
pub open spec fn drawn_or(words: Seq<Seq<char>>, fallback: Seq<char>, w: Seq<char>) -> bool {
    if words.len() == 0 {
        w == fallback
    } else {
        words.contains(w)
    }
}

/// A username built from an adjective, a noun and a digit suffix.
pub open spec fn username_of(adjective: Seq<char>, noun: Seq<char>, suffix: Seq<char>) -> Seq<char> {
    title(adjective) + title(noun) + suffix
}

/// What every username with `digits` suffix digits satisfies: a title-cased
/// adjective (`brave` when there are none), a title-cased noun (`otter` when
/// there are none), then `digits` decimal digits.
pub open spec fn is_username_for(
    adjectives: Seq<Seq<char>>,
    nouns: Seq<Seq<char>>,
    digits: nat,
    name: Seq<char>,
) -> bool {
    exists|a: Seq<char>, n: Seq<char>, d: Seq<char>|
        {
            &&& drawn_or(adjectives, "brave"@, a)
            &&& drawn_or(nouns, "otter"@, n)
            &&& d.len() == digits
            &&& forall|i: int| 0 <= i < d.len() ==> is_ascii_digit(#[trigger] d[i])
            &&& name == #[trigger] username_of(a, n, d)
        }
}

/// A username ends in exactly as many decimal digits as were asked.
pub proof fn lemma_username_digit_suffix(
    adjectives: Seq<Seq<char>>,
    nouns: Seq<Seq<char>>,
    digits: nat,
    name: Seq<char>,
)
    requires
        is_username_for(adjectives, nouns, digits, name),
    ensures
        name.len() >= digits,
        forall|i: int| name.len() - digits <= i < name.len() ==> is_ascii_digit(#[trigger] name[i]),
{
    let (a, n, d) = choose|a: Seq<char>, n: Seq<char>, d: Seq<char>|
        {
            &&& drawn_or(adjectives, "brave"@, a)
            &&& drawn_or(nouns, "otter"@, n)
            &&& d.len() == digits
            &&& forall|i: int| 0 <= i < d.len() ==> is_ascii_digit(#[trigger] d[i])
            &&& name == #[trigger] username_of(a, n, d)
        };
    let stem = title(a) + title(n);
    assert(name == stem + d);
    assert forall|i: int| name.len() - digits <= i < name.len() implies is_ascii_digit(#[trigger] name[i]) by {
        assert(name[i] == d[i - stem.len()]);
    }
}

/// A word drawn from `words` from the generator state `rng`, or `fallback`
/// (the generator untouched) when the list is empty, with the state after.
pub open spec fn pick_or(words: Seq<Seq<char>>, fallback: Seq<char>, rng: StdRng) -> (Seq<char>, StdRng) {
    if words.len() == 0 {
        (fallback, rng)
    } else {
        let d = spec_choose_draw(words.len() as usize, rng);
        (words[d.0 as int], d.1)
    }
}

/// The username `username` draws from the generator state `rng`, with the
/// state afterwards: an adjective, then a noun, then `digits` digits.
pub open spec fn spec_username(
    adjectives: Seq<Seq<char>>,
    nouns: Seq<Seq<char>>,
    digits: usize,
    rng: StdRng,
) -> (Seq<char>, StdRng) {
    let a = pick_or(adjectives, "brave"@, rng);
    let n = pick_or(nouns, "otter"@, a.1);
    let d = range_draws(10, digits as nat, n.1);
    (username_of(a.0, n.0, d.0.map_values(|x: usize| digit_of(x as nat))), d.1)
}

/// One more suffix digit draws once more over `0..10`, from the state the
/// shorter username left the generator in, and appends that digit: each
/// digit is its own draw.
pub proof fn lemma_username_next_digit(
    adjectives: Seq<Seq<char>>,
    nouns: Seq<Seq<char>>,
    digits: usize,
    rng: StdRng,
)
    requires
        digits < usize::MAX,
    ensures
        ({
            let prev = spec_username(adjectives, nouns, digits, rng);
            let d = spec_range_draw(10, prev.1);
            spec_username(adjectives, nouns, (digits + 1) as usize, rng) == (
                prev.0.push(digit_of(d.0 as nat)),
                d.1,
            )
        }),
{
    let a = pick_or(adjectives, "brave"@, rng);
    let n = pick_or(nouns, "otter"@, a.1);
    let prev_draws = range_draws(10, digits as nat, n.1);
    let next_draws = range_draws(10, (digits + 1) as nat, n.1);
    lemma_range_draws(10, digits as nat, n.1);
    let d = spec_range_draw(10, prev_draws.1);
    assert(next_draws.0 == prev_draws.0.push(d.0));
    let f = |x: usize| digit_of(x as nat);
    assert(next_draws.0.map_values(f) =~= prev_draws.0.map_values(f).push(digit_of(d.0 as nat)));
    assert(username_of(a.0, n.0, next_draws.0.map_values(f)) =~= username_of(
        a.0,
        n.0,
        prev_draws.0.map_values(f),
    ).push(digit_of(d.0 as nat)));
}

/// The words of a username: the adjective is one draw over the adjectives
/// from the starting state, the noun one draw over the nouns from the state
/// after it; an empty list gives its fallback word without drawing.
pub proof fn lemma_username_words(adjectives: Seq<Seq<char>>, nouns: Seq<Seq<char>>, rng: StdRng)
    ensures
        adjectives.len() > 0 && nouns.len() > 0 ==> ({
            let da = spec_choose_draw(adjectives.len() as usize, rng);
            let dn = spec_choose_draw(nouns.len() as usize, da.1);
            spec_username(adjectives, nouns, 0, rng) == (
                title(adjectives[da.0 as int]) + title(nouns[dn.0 as int]),
                dn.1,
            )
        }),
        adjectives.len() > 0 && nouns.len() == 0 ==> ({
            let da = spec_choose_draw(adjectives.len() as usize, rng);
            spec_username(adjectives, nouns, 0, rng) == (
                title(adjectives[da.0 as int]) + title("otter"@),
                da.1,
            )
        }),
        adjectives.len() == 0 && nouns.len() > 0 ==> ({
            let dn = spec_choose_draw(nouns.len() as usize, rng);
            spec_username(adjectives, nouns, 0, rng) == (
                title("brave"@) + title(nouns[dn.0 as int]),
                dn.1,
            )
        }),
        adjectives.len() == 0 && nouns.len() == 0 ==> spec_username(adjectives, nouns, 0, rng) == (
            title("brave"@) + title("otter"@),
            rng,
        ),
{
    let a = pick_or(adjectives, "brave"@, rng);
    let n = pick_or(nouns, "otter"@, a.1);
    assert(range_draws(10, 0, n.1).0.map_values(|x: usize| digit_of(x as nat)) =~= Seq::<char>::empty());
    assert(title(a.0) + title(n.0) + Seq::<char>::empty() =~= title(a.0) + title(n.0));
}

/// A memorable `AdjectiveNoun` username, optionally suffixed with random
/// digits.
pub fn username(pool: &WordPool, suffix_digits: usize, rng: &mut StdRng) -> (r: String)
    ensures
        is_username_for(
            string_views(pool.adjectives@),
            string_views(pool.nouns@),
            suffix_digits as nat,
            r@,
        ),
        r@ == spec_username(
            string_views(pool.adjectives@),
            string_views(pool.nouns@),
            suffix_digits,
            *old(rng),
        ).0,
        *final(rng) == spec_username(
            string_views(pool.adjectives@),
            string_views(pool.nouns@),
            suffix_digits,
            *old(rng),
        ).1,
{
    let ghost rng0 = *rng;
    let ghost adjs = string_views(pool.adjectives@);
    let ghost nouns = string_views(pool.nouns@);
    let adj: &str = match choose_one(pool.adjectives.as_slice(), rng) {
        Some(w) => w.as_str(),
        None => "brave",
    };
    let noun: &str = match choose_one(pool.nouns.as_slice(), rng) {
        Some(w) => w.as_str(),
        None => "otter",
    };
    let ghost a = pick_or(adjs, "brave"@, rng0);
    let ghost n = pick_or(nouns, "otter"@, a.1);
    proof {
        assert(adj@ == a.0);
        assert(noun@ == n.0);
        assert(*rng == n.1);
        if pool.adjectives@.len() > 0 {
            assert(adjs.contains(adj@));
        }
        if pool.nouns@.len() > 0 {
            assert(nouns.contains(noun@));
        }
    }
    let mut name = title_case(adj);
    let second = title_case(noun);
    name.append(second.as_str());
    let ghost stem = name@;
    let ghost mut suffix: Seq<char> = Seq::empty();
    for drawn in 0..suffix_digits
        invariant
            name@ == stem + suffix,
            suffix.len() == drawn,
            forall|j: int| 0 <= j < suffix.len() ==> is_ascii_digit(#[trigger] suffix[j]),
            suffix == range_draws(10, drawn as nat, n.1).0.map_values(|x: usize| digit_of(x as nat)),
            *rng == range_draws(10, drawn as nat, n.1).1,
    {
        let ghost before = *rng;
        let c = digit_char(random_index(rng, 10));
        push_char(&mut name, c);
        proof {
            let prev = suffix;
            suffix = suffix.push(c);
            assert(name@ =~= stem + suffix);
            lemma_range_draws(10, drawn as nat, n.1);
            assert(range_draws(10, (drawn + 1) as nat, n.1).0 == range_draws(10, drawn as nat, n.1).0.push(
                spec_range_draw(10, before).0,
            ));
            assert(suffix =~= range_draws(10, (drawn + 1) as nat, n.1).0.map_values(
                |x: usize| digit_of(x as nat),
            ));
        }
    }
    proof {
        assert(name@ == username_of(adj@, noun@, suffix));
    }
    name
}

} // verus!
