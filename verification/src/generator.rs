//! Generating passwords and passphrases.
use rand::seq::SliceRandom;
use rand::Rng;
use vstd::prelude::*;
use vstd::string::*;

use crate::config::AppConfig;
use crate::text::{chars_of, string_of, texts};

verus! {

/// What a generated password is made of.
#[derive(Debug, Clone, Copy, PartialEq, Eq, Structural)]
pub struct GeneratorOptions {
    pub length: usize,
    pub use_lowercase: bool,
    pub use_uppercase: bool,
    pub use_numbers: bool,
    pub use_symbols: bool,
}

/// The options of a new installation.
pub open spec fn default_options() -> GeneratorOptions {
    GeneratorOptions {
        length: 20,
        use_lowercase: true,
        use_uppercase: true,
        use_numbers: true,
        use_symbols: true,
    }
}

impl Default for GeneratorOptions {
    fn default() -> (o: GeneratorOptions)
        ensures
            o == default_options(),
    {
        GeneratorOptions {
            length: 20,
            use_lowercase: true,
            use_uppercase: true,
            use_numbers: true,
            use_symbols: true,
        }
    }
}

impl GeneratorOptions {
    /// The options in the settings.
    pub fn load(config: &AppConfig) -> (o: GeneratorOptions)
        ensures
            o == config.generator,
    {
        config.generator
    }

    /// The settings with these options.
    pub fn save(&self, config: &AppConfig) -> (c: AppConfig)
        ensures
            c == (AppConfig { generator: *self, ..*config }),
    {
        let mut c = *config;
        c.generator = *self;
        c
    }
}

pub const MIN_LENGTH: usize = 4;

pub const MAX_LENGTH: usize = 256;

pub const MIN_WORDS: usize = 3;

pub const MAX_WORDS: usize = 12;

pub const DEFAULT_WORDS: usize = 6;

/// A number brought between two bounds.
pub open spec fn bounded(n: int, low: int, high: int) -> int {
    if n < low {
        low
    } else if n > high {
        high
    } else {
        n
    }
}

/// Brings a number between two bounds.
pub fn clamp(n: usize, low: usize, high: usize) -> (r: usize)
    ensures
        r == bounded(n as int, low as int, high as int),
{
    if n < low {
        low
    } else if n > high {
        high
    } else {
        n
    }
}

/// `Rng::random_range` of `rand::rng()`: a random number below the bound. Any of them may come.
#[verifier::external_body]
fn random_below(bound: usize) -> (r: usize)
    requires
        0 < bound,
    ensures
        r < bound,
{
    rand::rng().random_range(0..bound)
}

/// `SliceRandom::shuffle` with `rand::rng()`: puts the characters in a random order. Any order
/// may come.
#[verifier::external_body]
fn shuffle(v: &mut Vec<char>)
    ensures
        final(v)@.to_multiset() == old(v)@.to_multiset(),
        final(v)@.len() == old(v)@.len(),
{
    v.shuffle(&mut rand::rng())
}

/// The character sets that the options select. They leave out what is easily confused.
pub open spec fn selected(o: GeneratorOptions) -> Seq<Seq<char>> {
    (if o.use_lowercase {
        seq!["abcdefghijkmnopqrstuvwxyz"@]
    } else {
        Seq::empty()
    }) + (if o.use_uppercase {
        seq!["ABCDEFGHJKLMNPQRSTUVWXYZ"@]
    } else {
        Seq::empty()
    }) + (if o.use_numbers {
        seq!["23456789"@]
    } else {
        Seq::empty()
    }) + (if o.use_symbols {
        seq!["!@#$%^&*()_+-=[]{};:,.<>?"@]
    } else {
        Seq::empty()
    })
}

/// The characters of all sets, one set after the other.
pub open spec fn pooled(sets: Seq<Seq<char>>) -> Seq<char>
    decreases sets.len(),
{
    if sets.len() == 0 {
        Seq::empty()
    } else {
        pooled(sets.drop_last()) + sets.last()
    }
}

/// The length of a generated password.
pub open spec fn password_length(o: GeneratorOptions) -> int {
    bounded(o.length as int, MIN_LENGTH as int, MAX_LENGTH as int)
}

/// What the character in position `i` is drawn from: one character from each selected set, then
/// the rest from all of them.
pub open spec fn source(sets: Seq<Seq<char>>, i: int) -> Seq<char> {
    if i < sets.len() {
        sets[i]
    } else {
        pooled(sets)
    }
}

/// Whether `draws` picks a character in every position.
pub open spec fn fits(draws: Seq<usize>, o: GeneratorOptions) -> bool {
    draws.len() == password_length(o) && forall|i: int|
        0 <= i < draws.len() ==> (#[trigger] draws[i]) < source(selected(o), i).len()
}

/// The characters that the draws pick, before they are shuffled.
pub open spec fn drawn(o: GeneratorOptions, draws: Seq<usize>) -> Seq<char> {
    Seq::new(draws.len(), |i: int| source(selected(o), i)[draws[i] as int])
}

proof fn lemma_sets(o: GeneratorOptions)
    ensures
        selected(o).len() <= 4,
        forall|i: int| 0 <= i < selected(o).len() ==> (#[trigger] selected(o)[i]).len() > 0,
        selected(o).len() > 0 ==> pooled(selected(o)).len() > 0,
        selected(o).len() == 0 <==> !o.use_lowercase && !o.use_uppercase && !o.use_numbers
            && !o.use_symbols,
{
    reveal_strlit("abcdefghijkmnopqrstuvwxyz");
    reveal_strlit("ABCDEFGHJKLMNPQRSTUVWXYZ");
    reveal_strlit("23456789");
    reveal_strlit("!@#$%^&*()_+-=[]{};:,.<>?");
    let s = selected(o);
    if s.len() > 0 {
        assert(s.last().len() > 0);
        assert(pooled(s) == pooled(s.drop_last()) + s.last());
    }
}

fn selected_sets(o: &GeneratorOptions) -> (v: Vec<Vec<char>>)
    ensures
        crate::text::rows(v@) == selected(*o),
{
    let mut v: Vec<Vec<char>> = Vec::new();
    if o.use_lowercase {
        v.push(chars_of("abcdefghijkmnopqrstuvwxyz"));
    }
    if o.use_uppercase {
        v.push(chars_of("ABCDEFGHJKLMNPQRSTUVWXYZ"));
    }
    if o.use_numbers {
        v.push(chars_of("23456789"));
    }
    if o.use_symbols {
        v.push(chars_of("!@#$%^&*()_+-=[]{};:,.<>?"));
    }
    assert(crate::text::rows(v@) =~= selected(*o));
    v
}

fn pool_of(v: &Vec<Vec<char>>) -> (r: Vec<char>)
    ensures
        r@ == pooled(crate::text::rows(v@)),
{
    let ghost all = crate::text::rows(v@);
    let mut r: Vec<char> = Vec::new();
    let mut i: usize = 0;
    assert(all.take(0).len() == 0);
    while i < v.len()
        invariant
            i <= v@.len(),
            all == crate::text::rows(v@),
            r@ == pooled(all.take(i as int)),
        decreases v@.len() - i,
    {
        assert(all.take(i + 1).drop_last() =~= all.take(i as int));
        assert(all.take(i + 1).last() == v@[i as int]@);
        let mut copy = crate::text::part(v[i].as_slice(), 0, v[i].len());
        assert(copy@ =~= v@[i as int]@);
        r.append(&mut copy);
        i += 1;
    }
    assert(all.take(i as int) =~= all);
    r
}

/// The characters that the given draws pick, before they are shuffled.
pub fn draft_password(options: &GeneratorOptions, draws: &Vec<usize>) -> (v: Vec<char>)
    requires
        selected(*options).len() > 0,
        fits(draws@, *options),
    ensures
        v@ == drawn(*options, draws@),
{
    let sets = selected_sets(options);
    let pool = pool_of(&sets);
    let ghost s = selected(*options);
    assert(sets@.len() == s.len()) by {
        assert(crate::text::rows(sets@).len() == sets@.len());
    }
    let mut v: Vec<char> = Vec::new();
    let mut i: usize = 0;
    while i < draws.len()
        invariant
            i <= draws@.len(),
            s == selected(*options),
            crate::text::rows(sets@) == s,
            sets@.len() == s.len(),
            pool@ == pooled(s),
            fits(draws@, *options),
            v@ == drawn(*options, draws@).take(i as int),
        decreases draws@.len() - i,
    {
        let d: usize = draws[i];
        assert(d < source(s, i as int).len());
        if i < sets.len() {
            assert(s[i as int] == sets@[i as int]@);
            v.push(sets[i][d]);
        } else {
            v.push(pool[d]);
        }
        i += 1;
        assert(v@ =~= drawn(*options, draws@).take(i as int));
    }
    assert(drawn(*options, draws@).take(i as int) =~= drawn(*options, draws@));
    v
}

/// Whether a password is made as the options ask: of their length, from the selected sets only,
/// with each of them represented.
pub open spec fn made_to(s: Seq<char>, o: GeneratorOptions) -> bool {
    &&& s.len() == password_length(o)
    &&& forall|i: int| 0 <= i < s.len() ==> pooled(selected(o)).contains(#[trigger] s[i])
    &&& forall|k: int|
        0 <= k < selected(o).len() ==> exists|i: int|
            0 <= i < s.len() && (#[trigger] selected(o)[k]).contains(#[trigger] s[i])
}

proof fn lemma_pool_holds(sets: Seq<Seq<char>>, k: int, c: char)
    requires
        0 <= k < sets.len(),
        sets[k].contains(c),
    ensures
        pooled(sets).contains(c),
    decreases sets.len(),
{
    let d = sets.drop_last();
    let l = sets.last();
    if k == sets.len() - 1 {
        let j = choose|j: int| 0 <= j < l.len() && l[j] == c;
        assert(pooled(sets)[pooled(d).len() + j] == c);
    } else {
        assert(d[k] == sets[k]);
        lemma_pool_holds(d, k, c);
        let j = choose|j: int| 0 <= j < pooled(d).len() && pooled(d)[j] == c;
        assert(pooled(sets)[j] == c);
    }
}

/// Whatever is drawn, and however it is shuffled, the password is made as the options ask.
pub proof fn law_generated_passwords_are_made_to_order(
    o: GeneratorOptions,
    draws: Seq<usize>,
    s: Seq<char>,
)
    requires
        selected(o).len() > 0,
        fits(draws, o),
        s.to_multiset() == drawn(o, draws).to_multiset(),
    ensures
        made_to(s, o),
{
    let d = drawn(o, draws);
    let sets = selected(o);
    lemma_sets(o);
    vstd::seq_lib::to_multiset_len(s);
    vstd::seq_lib::to_multiset_len(d);
    assert forall|i: int| 0 <= i < s.len() implies pooled(sets).contains(#[trigger] s[i]) by {
        vstd::seq_lib::to_multiset_contains(s, s[i]);
        vstd::seq_lib::to_multiset_contains(d, s[i]);
        assert(s.contains(s[i]));
        assert(d.contains(s[i]));
        let j = choose|j: int| 0 <= j < d.len() && d[j] == s[i];
        assert(draws[j] < source(sets, j).len());
        if j < sets.len() {
            assert(sets[j][draws[j] as int] == s[i]);
            assert(sets[j].contains(s[i]));
            lemma_pool_holds(sets, j, s[i]);
        } else {
            assert(pooled(sets)[draws[j] as int] == s[i]);
        }
    }
    assert forall|k: int| 0 <= k < sets.len() implies exists|i: int|
        0 <= i < s.len() && (#[trigger] sets[k]).contains(#[trigger] s[i]) by {
        assert(draws[k] < source(sets, k).len());
        let c = d[k];
        assert(c == sets[k][draws[k] as int]);
        assert(sets[k].contains(c));
        assert(d.contains(c));
        vstd::seq_lib::to_multiset_contains(s, c);
        vstd::seq_lib::to_multiset_contains(d, c);
        assert(s.contains(c));
        let i = choose|i: int| 0 <= i < s.len() && s[i] == c;
        assert(sets[k].contains(s[i]));
    }
}

fn make_draws(options: &GeneratorOptions) -> (draws: Vec<usize>)
    requires
        selected(*options).len() > 0,
    ensures
        fits(draws@, *options),
{
    let sets = selected_sets(options);
    let pool = pool_of(&sets);
    let length: usize = clamp(options.length, MIN_LENGTH, MAX_LENGTH);
    let ghost s = selected(*options);
    proof {
        lemma_sets(*options);
        assert(crate::text::rows(sets@).len() == sets@.len());
    }
    let mut draws: Vec<usize> = Vec::new();
    while draws.len() < length
        invariant
            draws@.len() <= length,
            s == selected(*options),
            crate::text::rows(sets@) == s,
            sets@.len() == s.len(),
            pool@ == pooled(s),
            pool@.len() > 0,
            forall|i: int| 0 <= i < s.len() ==> (#[trigger] s[i]).len() > 0,
            forall|i: int| 0 <= i < draws@.len() ==> (#[trigger] draws@[i]) < source(s, i).len(),
        decreases length - draws@.len(),
    {
        let i: usize = draws.len();
        let bound: usize = if i < sets.len() {
            assert(s[i as int] == sets@[i as int]@);
            sets[i].len()
        } else {
            pool.len()
        };
        draws.push(random_below(bound));
    }
    draws
}

/// Generates a password: one character from each selected set, the rest from all of them, in a
/// random order. The length is brought between 4 and 256.
pub fn generate_password(options: &GeneratorOptions) -> (r: Result<String, String>)
    ensures
        (r is Ok) == (selected(*options).len() > 0),
        r matches Ok(s) ==> made_to(s@, *options),
        r matches Err(e) ==> e@ == "At least one character set must be selected"@,
{
    proof {
        lemma_sets(*options);
    }
    if !options.use_lowercase && !options.use_uppercase && !options.use_numbers
        && !options.use_symbols {
        return Err("At least one character set must be selected".to_owned());
    }
    let draws = make_draws(options);
    let mut v = draft_password(options, &draws);
    shuffle(&mut v);
    proof {
        law_generated_passwords_are_made_to_order(*options, draws@, v@);
    }
    Ok(string_of(v.as_slice()))
}

/// The words that the draws pick, with hyphens between them.
pub open spec fn hyphenated(words: Seq<Seq<char>>, draws: Seq<usize>) -> Seq<char>
    decreases draws.len(),
{
    if draws.len() == 0 {
        Seq::empty()
    } else if draws.len() == 1 {
        words[draws[0] as int]
    } else {
        hyphenated(words, draws.drop_last()) + seq!['-'] + words[draws.last() as int]
    }
}

/// Whether `draws` picks words of the list, as many as a passphrase of the given size has.
pub open spec fn picks(draws: Seq<usize>, words: nat, count: int) -> bool {
    draws.len() == bounded(count, MIN_WORDS as int, MAX_WORDS as int) && forall|i: int|
        0 <= i < draws.len() ==> (#[trigger] draws[i]) < words
}

/// Joins the words that the given draws pick.
pub fn join_words(words: &Vec<String>, draws: &Vec<usize>) -> (s: String)
    requires
        forall|i: int| 0 <= i < draws@.len() ==> (#[trigger] draws@[i]) < words@.len(),
    ensures
        s@ == hyphenated(texts(words@), draws@),
{
    let mut s = String::new();
    let mut i: usize = 0;
    assert(draws@.take(0).len() == 0);
    while i < draws.len()
        invariant
            i <= draws@.len(),
            forall|k: int| 0 <= k < draws@.len() ==> (#[trigger] draws@[k]) < words@.len(),
            s@ == hyphenated(texts(words@), draws@.take(i as int)),
        decreases draws@.len() - i,
    {
        assert(draws@.take(i + 1).drop_last() =~= draws@.take(i as int));
        assert(draws@.take(i + 1).last() == draws@[i as int]);
        let d: usize = draws[i];
        if i > 0 {
            s.push('-');
        }
        s.append(words[d].as_str());
        proof {
            if i == 0 {
                assert(s@ =~= words@[d as int]@);
                assert(draws@.take(1)[0] == d);
            } else {
                assert(s@ =~= hyphenated(texts(words@), draws@.take(i as int)) + seq!['-']
                    + words@[d as int]@);
            }
        }
        i += 1;
    }
    assert(draws@.take(i as int) =~= draws@);
    s
}

/// Generates a passphrase of random words from the list, with hyphens between them. The number
/// of words is brought between 3 and 12.
pub fn generate_passphrase(words: &Vec<String>, word_count: usize) -> (s: String)
    requires
        words@.len() > 0,
    ensures
        exists|draws: Seq<usize>|
            picks(draws, words@.len(), word_count as int) && s@ == #[trigger] hyphenated(
                texts(words@),
                draws,
            ),
{
    let count: usize = clamp(word_count, MIN_WORDS, MAX_WORDS);
    let mut draws: Vec<usize> = Vec::new();
    while draws.len() < count
        invariant
            words@.len() > 0,
            draws@.len() <= count,
            forall|i: int| 0 <= i < draws@.len() ==> (#[trigger] draws@[i]) < words@.len(),
        decreases count - draws@.len(),
    {
        draws.push(random_below(words.len()));
    }
    let s = join_words(words, &draws);
    assert(picks(draws@, words@.len(), word_count as int));
    s
}

} // verus!
