//! Word lists: parsing them from text, and the pool passphrases and
//! usernames draw from.

use crate::text::{
    is_white_space, join, push_char, string_from_chars, trim, trim_chars, trim_end, trim_start,
};
use vstd::prelude::*;

verus! {

/// The character sequences held by a list of strings.
pub open spec fn string_views(v: Seq<String>) -> Seq<Seq<char>> {
    v.map_values(|s: String| s@)
}

/// `s` cut at every `sep`, as `str::split` gives it: always at least one
/// part, and one more than `sep` occurs in `s`.
pub open spec fn split_on(s: Seq<char>, sep: char) -> Seq<Seq<char>>
    decreases s.len(),
{
    if s.len() == 0 {
        seq![Seq::empty()]
    } else if s.last() == sep {
        split_on(s.drop_last(), sep).push(Seq::empty())
    } else {
        let parts = split_on(s.drop_last(), sep);
        parts.update(parts.len() - 1, parts.last().push(s.last()))
    }
}

/// There is always a last part to extend.
pub proof fn lemma_split_on_nonempty(s: Seq<char>, sep: char)
    ensures
        split_on(s, sep).len() > 0,
    decreases s.len(),
{
    if s.len() > 0 {
        lemma_split_on_nonempty(s.drop_last(), sep);
    }
}

/// The trimmed lines that are not empty.
pub open spec fn nonblank_trimmed(lines: Seq<Seq<char>>) -> Seq<Seq<char>> {
    lines.map_values(|l: Seq<char>| trim(l)).filter(|w: Seq<char>| w.len() > 0)
}

/// The words of a word list: its lines, trimmed, without the empty ones.
/// Line ends may be `\n` or `\r\n`; the `\r` is white space and goes with
/// the trimming.
pub open spec fn spec_words(text: Seq<char>) -> Seq<Seq<char>> {
    nonblank_trimmed(split_on(text, '\n'))
}

/// Taking one more line into account.
proof fn lemma_nonblank_trimmed_push(lines: Seq<Seq<char>>, line: Seq<char>)
    ensures
        nonblank_trimmed(lines.push(line)) == if trim(line).len() > 0 {
            nonblank_trimmed(lines).push(trim(line))
        } else {
            nonblank_trimmed(lines)
        },
{
    let f = |l: Seq<char>| trim(l);
    let p = |w: Seq<char>| w.len() > 0;
    assert(lines.push(line).map_values(f) =~= lines.map_values(f).push(trim(line)));
    lines.map_values(f).lemma_filter_push(trim(line), p);
}

/// Splitting a text that ends in a run of non-separators extends the last
/// part by that run.
proof fn lemma_split_on_extend(s: Seq<char>, t: Seq<char>, sep: char)
    requires
        !t.contains(sep),
    ensures
        split_on(s + t, sep) == split_on(s, sep).update(
            split_on(s, sep).len() - 1,
            split_on(s, sep).last() + t,
        ),
    decreases t.len(),
{
    lemma_split_on_nonempty(s, sep);
    if t.len() == 0 {
        assert(s + t =~= s);
        assert(split_on(s, sep).last() + t =~= split_on(s, sep).last());
        assert(split_on(s, sep).update(split_on(s, sep).len() - 1, split_on(s, sep).last())
            =~= split_on(s, sep));
    } else {
        let t0 = t.drop_last();
        assert(!t0.contains(sep)) by {
            if t0.contains(sep) {
                let i = choose|i: int| 0 <= i < t0.len() && t0[i] == sep;
                assert(t[i] == sep);
            }
        }
        assert(t.last() != sep) by {
            assert(t[t.len() - 1] == t.last());
        }
        lemma_split_on_extend(s, t0, sep);
        assert((s + t).drop_last() =~= s + t0);
        assert((s + t).last() == t.last());
        let p = split_on(s, sep);
        assert((p.last() + t0).push(t.last()) =~= p.last() + t);
        let q = split_on(s + t0, sep);
        assert(q == p.update(p.len() - 1, p.last() + t0));
        assert(q.len() == p.len());
        assert(q.last() == p.last() + t0);
        assert(split_on(s + t, sep) == q.update(q.len() - 1, q.last().push((s + t).last())));
        assert(split_on(s + t, sep) =~= p.update(p.len() - 1, p.last() + t));
    }
}

/// Cutting `parts` joined by `sep` at every `sep` gives the parts back,
/// when no part holds `sep` itself.
pub proof fn lemma_split_join(parts: Seq<Seq<char>>, sep: char)
    requires
        parts.len() > 0,
        forall|i: int| 0 <= i < parts.len() ==> !(#[trigger] parts[i]).contains(sep),
    ensures
        split_on(join(parts, sep), sep) == parts,
    decreases parts.len(),
{
    if parts.len() == 1 {
        lemma_split_on_extend(Seq::empty(), parts[0], sep);
        assert(Seq::<char>::empty() + parts[0] =~= parts[0]);
        assert(split_on(Seq::<char>::empty(), sep) == seq![Seq::<char>::empty()]);
        assert(split_on(join(parts, sep), sep) =~= parts);
    } else {
        let init = parts.drop_last();
        assert forall|i: int| 0 <= i < init.len() implies !(#[trigger] init[i]).contains(sep) by {
            assert(init[i] == parts[i]);
        }
        lemma_split_join(init, sep);
        let head = join(init, sep).push(sep);
        assert(head.drop_last() =~= join(init, sep));
        assert(split_on(head, sep) == split_on(join(init, sep), sep).push(Seq::empty()));
        assert(parts[parts.len() - 1] == parts.last());
        lemma_split_on_extend(head, parts.last(), sep);
        assert(Seq::<char>::empty() + parts.last() =~= parts.last());
        assert(split_on(join(parts, sep), sep) =~= parts);
    }
}

/// No part of a split holds the separator.
pub proof fn lemma_split_on_parts(s: Seq<char>, sep: char)
    ensures
        forall|i: int| 0 <= i < split_on(s, sep).len() ==> !(#[trigger] split_on(s, sep)[i]).contains(sep),
    decreases s.len(),
{
    if s.len() > 0 {
        lemma_split_on_parts(s.drop_last(), sep);
        lemma_split_on_nonempty(s.drop_last(), sep);
        let p = split_on(s.drop_last(), sep);
        if s.last() != sep {
            let np = p.last().push(s.last());
            assert(!np.contains(sep)) by {
                if np.contains(sep) {
                    let j = choose|j: int| 0 <= j < np.len() && np[j] == sep;
                    if j < p.last().len() {
                        assert(p[p.len() - 1][j] == sep);
                    }
                }
            }
        } else {
            assert(!Seq::<char>::empty().contains(sep));
        }
        assert forall|i: int| 0 <= i < split_on(s, sep).len() implies !(#[trigger] split_on(s, sep)[i]).contains(sep) by {
            if s.last() == sep {
                if i < p.len() {
                    assert(split_on(s, sep)[i] == p[i]);
                }
            } else {
                if i < p.len() - 1 {
                    assert(split_on(s, sep)[i] == p[i]);
                }
            }
        }
    } else {
        assert(split_on(s, sep) == seq![Seq::<char>::empty()]);
        assert(!Seq::<char>::empty().contains(sep));
    }
}

/// Dropping leading white space leaves a suffix that starts with a
/// character that is not white space, if any.
proof fn lemma_trim_start_shape(s: Seq<char>) -> (k: int)
    ensures
        0 <= k <= s.len(),
        trim_start(s) == s.subrange(k, s.len() as int),
        trim_start(s).len() > 0 ==> !is_white_space(trim_start(s)[0]),
    decreases s.len(),
{
    if s.len() > 0 && is_white_space(s[0]) {
        let k = lemma_trim_start_shape(s.drop_first());
        assert(s.drop_first().subrange(k, s.drop_first().len() as int) =~= s.subrange(k + 1, s.len() as int));
        k + 1
    } else {
        assert(s.subrange(0, s.len() as int) =~= s);
        0
    }
}

/// Dropping trailing white space leaves a prefix that ends with a
/// character that is not white space, if any.
proof fn lemma_trim_end_shape(s: Seq<char>) -> (m: int)
    ensures
        0 <= m <= s.len(),
        trim_end(s) == s.subrange(0, m),
        trim_end(s).len() > 0 ==> !is_white_space(trim_end(s).last()),
    decreases s.len(),
{
    if s.len() > 0 && is_white_space(s.last()) {
        let m = lemma_trim_end_shape(s.drop_last());
        assert(s.drop_last().subrange(0, m) =~= s.subrange(0, m));
        m
    } else {
        assert(s.subrange(0, s.len() as int) =~= s);
        s.len() as int
    }
}

/// A trimmed, non-empty line neither starts nor ends with white space, and
/// holds only characters of the line.
proof fn lemma_trim_shape(s: Seq<char>)
    ensures
        trim(s).len() > 0 ==> !is_white_space(trim(s)[0]) && !is_white_space(trim(s).last()),
        forall|c: char| trim(s).contains(c) ==> s.contains(c),
{
    let k = lemma_trim_start_shape(s);
    let t = trim_start(s);
    let m = lemma_trim_end_shape(t);
    if trim(s).len() > 0 {
        assert(trim(s)[0] == t[0]);
    }
    assert forall|c: char| trim(s).contains(c) implies s.contains(c) by {
        let j = choose|j: int| 0 <= j < trim(s).len() && trim(s)[j] == c;
        assert(s[k + j] == c);
    }
}

/// Every word of a parsed word list is non-empty, neither starts nor ends
/// with white space, and holds no line break.
pub proof fn lemma_words_are_clean(text: Seq<char>, i: int)
    requires
        0 <= i < spec_words(text).len(),
    ensures
        spec_words(text)[i].len() > 0,
        !is_white_space(spec_words(text)[i][0]),
        !is_white_space(spec_words(text)[i].last()),
        !spec_words(text)[i].contains('\n'),
{
    let lines = split_on(text, '\n');
    let f = |l: Seq<char>| trim(l);
    let p = |w: Seq<char>| w.len() > 0;
    let trimmed = lines.map_values(f);
    let w = spec_words(text)[i];
    trimmed.lemma_filter_pred(p, i);
    assert(trimmed.filter(p).contains(w));
    trimmed.lemma_filter_contains_rev(p, w);
    let j = choose|j: int| 0 <= j < trimmed.len() && trimmed[j] == w;
    assert(w == trim(lines[j]));
    lemma_trim_shape(lines[j]);
    lemma_split_on_parts(text, '\n');
    assert(!lines[j].contains('\n'));
}

/// The non-empty trimmed lines of `text`.
pub fn words(text: &str) -> (r: Vec<String>)
    ensures
        string_views(r@) == spec_words(text@),
{
    let mut out: Vec<String> = Vec::new();
    let mut line: Vec<char> = Vec::new();
    let ghost mut done: Seq<Seq<char>> = Seq::empty();
    for c in it: text.chars()
        invariant
            it.seq() == text@,
            split_on(text@.take(it.index() as int), '\n') == done.push(line@),
            string_views(out@) == nonblank_trimmed(done),
    {
        let ghost i = it.index() as int;
        proof {
            assert(text@.take(i + 1).drop_last() =~= text@.take(i));
            assert(text@.take(i + 1).last() == c);
            lemma_split_on_nonempty(text@.take(i), '\n');
        }
        if c == '\n' {
            let trimmed = trim_chars(&line);
            proof {
                lemma_nonblank_trimmed_push(done, line@);
            }
            if trimmed.len() > 0 {
                let w = string_from_chars(&trimmed);
                let ghost prev = out@;
                out.push(w);
                proof {
                    assert(string_views(out@) =~= string_views(prev).push(trimmed@));
                }
            }
            proof {
                done = done.push(line@);
            }
            line = Vec::new();
        } else {
            let ghost prev = line@;
            line.push(c);
            proof {
                assert(done.push(prev).update(done.len() as int, prev.push(c)) =~= done.push(line@));
            }
        }
    }
    proof {
        assert(text@.take(text@.len() as int) =~= text@);
        lemma_nonblank_trimmed_push(done, line@);
    }
    let trimmed = trim_chars(&line);
    if trimmed.len() > 0 {
        let w = string_from_chars(&trimmed);
        let ghost prev = out@;
        out.push(w);
        proof {
            assert(string_views(out@) =~= string_views(prev).push(trimmed@));
        }
    }
    out
}


/// `parts` joined with `sep` between each two of them.
pub fn join_words(parts: &Vec<String>, sep: char) -> (r: String)
    ensures
        r@ == join(string_views(parts@), sep),
{
    let mut out = String::new();
    let n = parts.len();
    for i in 0..n
        invariant
            n == parts@.len(),
            out@ == join(string_views(parts@).take(i as int), sep),
    {
        let ghost views = string_views(parts@);
        proof {
            assert(views.take(i + 1).drop_last() =~= views.take(i as int));
            assert(views.take(i + 1).last() == parts@[i as int]@);
        }
        if i > 0 {
            push_char(&mut out, sep);
        }
        out.append(parts[i].as_str());
        proof {
            if i == 0 {
                assert(views.take(1) =~= seq![parts@[0]@]);
            }
        }
    }
    proof {
        assert(string_views(parts@).take(n as int) =~= string_views(parts@));
    }
    out
}

/// The words passphrases and usernames draw from: the adjective list and
/// the noun list.
pub struct WordPool {
    pub adjectives: Vec<String>,
    pub nouns: Vec<String>,
}

impl WordPool {
    /// The adjectives followed by the nouns.
    pub open spec fn all_words(&self) -> Seq<Seq<char>> {
        string_views(self.adjectives@) + string_views(self.nouns@)
    }

    /// The pool can be counted in a `usize`.
    pub open spec fn size_fits(&self) -> bool {
        self.adjectives@.len() + self.nouns@.len() <= usize::MAX
    }

    /// A pool parsed from the two word-list texts, one word per line.
    pub fn from_texts(adjectives: &str, nouns: &str) -> (r: WordPool)
        ensures
            string_views(r.adjectives@) == spec_words(adjectives@),
            string_views(r.nouns@) == spec_words(nouns@),
    {
        WordPool { adjectives: words(adjectives), nouns: words(nouns) }
    }

    /// Number of words in the combined pool.
    pub fn size(&self) -> (r: usize)
        requires
            self.size_fits(),
        ensures
            r == self.all_words().len(),
    {
        self.adjectives.len() + self.nouns.len()
    }
}

} // verus!
