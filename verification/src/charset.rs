//! Character classes a password may draw from.

use vstd::prelude::*;

verus! {

/// Lower-case ASCII letters.
pub const LOWERCASE: &'static str = "abcdefghijklmnopqrstuvwxyz";

/// Upper-case ASCII letters.
pub const UPPERCASE: &'static str = "ABCDEFGHIJKLMNOPQRSTUVWXYZ";

/// Decimal digits.
pub const DIGITS: &'static str = "0123456789";

/// Punctuation symbols.
pub const SYMBOLS: &'static str = "!@#$%^&*()-_=+[]{};:,.?";

/// Characters that read alike in most fonts.
pub const AMBIGUOUS: &'static str = "Il1O0o";

/// Whether `c` is one of the look-alike characters.
pub open spec fn is_ambiguous(c: char) -> bool {
    AMBIGUOUS@.contains(c)
}

/// Whether `c` may be drawn when `exclude_ambiguous` has the given value.
pub open spec fn allowed(exclude_ambiguous: bool, c: char) -> bool {
    !exclude_ambiguous || !is_ambiguous(c)
}

/// The characters of `class` that survive the ambiguity filter, in order.
pub open spec fn kept(class: Seq<char>, exclude_ambiguous: bool) -> Seq<char> {
    class.filter(|c: char| allowed(exclude_ambiguous, c))
}

/// Tests whether `c` is one of the look-alike characters.
pub fn ambiguous(c: char) -> (r: bool)
    ensures
        r == is_ambiguous(c),
{
    for a in it: AMBIGUOUS.chars()
        invariant
            it.seq() == AMBIGUOUS@,
            forall|j: int| 0 <= j < it.index() ==> AMBIGUOUS@[j] != c,
    {
        if a == c {
            return true;
        }
    }
    false
}


/// The characters of `class` kept under the ambiguity setting, in order.
pub fn keep(class: &str, exclude_ambiguous: bool) -> (r: Vec<char>)
    ensures
        r@ == kept(class@, exclude_ambiguous),
{
    let mut out: Vec<char> = Vec::new();
    for c in it: class.chars()
        invariant
            it.seq() == class@,
            out@ == kept(class@.take(it.index() as int), exclude_ambiguous),
    {
        proof {
            let i = it.index() as int;
            assert(class@.take(i + 1) == class@.take(i).push(c));
            class@.take(i).lemma_filter_push(c, |c: char| allowed(exclude_ambiguous, c));
        }
        if !exclude_ambiguous || !ambiguous(c) {
            out.push(c);
        }
    }
    proof {
        assert(class@.take(class@.len() as int) == class@);
    }
    out
}

/// The character sequences held by a list of character vectors.
pub open spec fn views(v: Seq<Vec<char>>) -> Seq<Seq<char>> {
    v.map_values(|p: Vec<char>| p@)
}

/// Appends `pool` to `acc` when its class is enabled and it is not empty.
pub open spec fn push_if(acc: Seq<Seq<char>>, enabled: bool, pool: Seq<char>) -> Seq<Seq<char>> {
    if enabled && pool.len() > 0 {
        acc.push(pool)
    } else {
        acc
    }
}

/// Which character classes a password may draw from.
#[derive(Clone, Copy, PartialEq, Eq, Structural, Debug)]
pub struct Charset {
    pub lowercase: bool,
    pub uppercase: bool,
    pub digits: bool,
    pub symbols: bool,
    pub exclude_ambiguous: bool,
}

impl Default for Charset {
    /// Every class enabled, look-alikes kept.
    fn default() -> (r: Self)
        ensures
            r == (Charset {
                lowercase: true,
                uppercase: true,
                digits: true,
                symbols: true,
                exclude_ambiguous: false,
            }),
    {
        Charset {
            lowercase: true,
            uppercase: true,
            digits: true,
            symbols: true,
            exclude_ambiguous: false,
        }
    }
}

impl Charset {
    /// The enabled, non-empty classes in the order lower-case, upper-case,
    /// digits, symbols, each with the look-alikes already removed when asked.
    pub open spec fn spec_pools(self) -> Seq<Seq<char>> {
        let e = self.exclude_ambiguous;
        push_if(
            push_if(
                push_if(
                    push_if(Seq::empty(), self.lowercase, kept(LOWERCASE@, e)),
                    self.uppercase,
                    kept(UPPERCASE@, e),
                ),
                self.digits,
                kept(DIGITS@, e),
            ),
            self.symbols,
            kept(SYMBOLS@, e),
        )
    }

    /// No pool is empty.
    pub proof fn lemma_pools_nonempty(self)
        ensures
            forall|k: int| 0 <= k < self.spec_pools().len() ==> #[trigger] self.spec_pools()[k].len() > 0,
    {
        let e = self.exclude_ambiguous;
        let p1 = push_if(Seq::empty(), self.lowercase, kept(LOWERCASE@, e));
        let p2 = push_if(p1, self.uppercase, kept(UPPERCASE@, e));
        let p3 = push_if(p2, self.digits, kept(DIGITS@, e));
        let p4 = push_if(p3, self.symbols, kept(SYMBOLS@, e));
        assert(forall|k: int| 0 <= k < p1.len() ==> #[trigger] p1[k].len() > 0);
        assert(forall|k: int| 0 <= k < p2.len() ==> #[trigger] p2[k].len() > 0);
        assert(forall|k: int| 0 <= k < p3.len() ==> #[trigger] p3[k].len() > 0);
        assert(forall|k: int| 0 <= k < p4.len() ==> #[trigger] p4[k].len() > 0);
    }

    /// The combined alphabet: the pools one after another.
    pub open spec fn spec_alphabet(self) -> Seq<char> {
        self.spec_pools().flatten()
    }

    /// The enabled classes, ambiguous characters already stripped; classes
    /// left empty are dropped.
    pub fn pools(self) -> (r: Vec<Vec<char>>)
        ensures
            views(r@) == self.spec_pools(),
    {
        let e = self.exclude_ambiguous;
        let mut pools: Vec<Vec<char>> = Vec::new();
        let ghost mut acc: Seq<Seq<char>> = Seq::empty();
        if self.lowercase {
            let p = keep(LOWERCASE, e);
            if p.len() > 0 {
                pools.push(p);
            }
        }
        proof {
            acc = push_if(acc, self.lowercase, kept(LOWERCASE@, e));
            assert(pools@.len() == acc.len());
            assert(forall|i: int| 0 <= i < acc.len() ==> pools@[i]@ == acc[i]);
        }
        if self.uppercase {
            let p = keep(UPPERCASE, e);
            if p.len() > 0 {
                pools.push(p);
            }
        }
        proof {
            acc = push_if(acc, self.uppercase, kept(UPPERCASE@, e));
            assert(pools@.len() == acc.len());
            assert(forall|i: int| 0 <= i < acc.len() ==> pools@[i]@ == acc[i]);
        }
        if self.digits {
            let p = keep(DIGITS, e);
            if p.len() > 0 {
                pools.push(p);
            }
        }
        proof {
            acc = push_if(acc, self.digits, kept(DIGITS@, e));
            assert(pools@.len() == acc.len());
            assert(forall|i: int| 0 <= i < acc.len() ==> pools@[i]@ == acc[i]);
        }
        if self.symbols {
            let p = keep(SYMBOLS, e);
            if p.len() > 0 {
                pools.push(p);
            }
        }
        proof {
            acc = push_if(acc, self.symbols, kept(SYMBOLS@, e));
            assert(pools@.len() == acc.len());
            assert(forall|i: int| 0 <= i < acc.len() ==> pools@[i]@ == acc[i]);
        }
        proof {
            assert(views(pools@) =~= acc);
        }
        pools
    }

    /// The combined alphabet, the pools one after another.
    pub fn alphabet(self) -> (r: Vec<char>)
        ensures
            r@ == self.spec_alphabet(),
    {
        let pools = self.pools();
        concat_pools(&pools)
    }

    /// Size of the combined alphabet, for entropy estimates.
    pub fn alphabet_size(self) -> (r: usize)
        ensures
            r == self.spec_alphabet().len(),
    {
        self.alphabet().len()
    }
}

/// The pools one after another, in one vector.
pub fn concat_pools(pools: &Vec<Vec<char>>) -> (r: Vec<char>)
    ensures
        r@ == views(pools@).flatten(),
{
    let mut out: Vec<char> = Vec::new();
    let n = pools.len();
    for i in 0..n
        invariant
            n == pools@.len(),
            out@ == views(pools@).take(i as int).flatten(),
    {
        proof {
            assert(views(pools@).take(i + 1) =~= views(pools@).take(i as int).push(pools@[i as int]@));
            views(pools@).take(i as int).lemma_flatten_push(pools@[i as int]@);
        }
        let pool = &pools[i];
        let m = pool.len();
        for j in 0..m
            invariant
                m == pool@.len(),
                out@ == views(pools@).take(i as int).flatten() + pool@.take(j as int),
        {
            proof {
                assert(pool@.take(j + 1) =~= pool@.take(j as int).push(pool@[j as int]));
            }
            out.push(pool[j]);
        }
        proof {
            assert(pool@.take(m as int) =~= pool@);
        }
    }
    proof {
        assert(views(pools@).take(n as int) =~= views(pools@));
    }
    out
}

} // verus!
