//! Generated passwords and passphrases, tags, and lookups among known breaches.
use vstd::prelude::*;
use vstd::utf8::*;

use crate::breach::{check_hibp, count_among, count_on, hibp_url, lookup_hash, same_but_case};
use crate::config::{AppConfig, ConfigAction, ConfigFile};
use crate::db::tags::{
    distinct_tags, joined, law_normalizing_is_idempotent, law_tags_are_distinct, normalize_tags,
    split_tags, tags_of,
};
use crate::generator::{
    generate_passphrase, generate_password, hyphenated, made_to, picks, pooled, selected,
    GeneratorOptions,
};
use crate::text::{
    ascii_lowered, decimal, decimal_text, digits_value, first_at, lemma_first_at, lines,
    parse_unsigned, rows, split_on, texts, trim_text, trimmed, unsigned_value, white,
};

verus! {

/// Whether a character is one of those that are generated as small letters: without the l.
pub open spec fn small(c: char) -> bool {
    'a' as int <= c as int <= 'z' as int && c != 'l'
}

/// Whether a character is one of those that are generated as capitals: without the I and the O.
pub open spec fn capital(c: char) -> bool {
    'A' as int <= c as int <= 'Z' as int && c != 'I' && c != 'O'
}

/// Whether a character is one of those that are generated as digits: without the 0 and the 1.
pub open spec fn figure(c: char) -> bool {
    '2' as int <= c as int <= '9' as int
}

/// Whether a character is one of those that are generated as symbols.
pub open spec fn symbol(c: char) -> bool {
    "!@#$%^&*()_+-=[]{};:,.<>?"@.contains(c)
}

/// The sets of characters that passwords are made of.
pub proof fn lemma_sets()
    ensures
        forall|c: char| "abcdefghijkmnopqrstuvwxyz"@.contains(c) ==> #[trigger] small(c),
        forall|c: char| "ABCDEFGHJKLMNPQRSTUVWXYZ"@.contains(c) ==> #[trigger] capital(c),
        forall|c: char| "23456789"@.contains(c) ==> #[trigger] figure(c),
        "abcdefghijkmnopqrstuvwxyz"@.len() == 25,
        "ABCDEFGHJKLMNPQRSTUVWXYZ"@.len() == 24,
        "23456789"@.len() == 8,
{
    reveal_strlit("abcdefghijkmnopqrstuvwxyz");
    reveal_strlit("ABCDEFGHJKLMNPQRSTUVWXYZ");
    reveal_strlit("23456789");
}

proof fn lemma_pooled(sets: Seq<Seq<char>>, c: char)
    ensures
        pooled(sets).contains(c) <==> exists|k: int| 0 <= k < sets.len() && (#[trigger] sets[k]).contains(c),
    decreases sets.len(),
{
    if sets.len() > 0 {
        let d = sets.drop_last();
        lemma_pooled(d, c);
        let a = pooled(d);
        let b = sets.last();
        if (a + b).contains(c) {
            let k = choose|k: int| 0 <= k < (a + b).len() && (a + b)[k] == c;
            if k < a.len() {
                assert(a[k] == c);
                assert(a.contains(c));
                let j = choose|j: int| 0 <= j < d.len() && (#[trigger] d[j]).contains(c);
                assert(sets[j] == d[j]);
            } else {
                assert(b[k - a.len()] == c);
                assert(sets[sets.len() - 1].contains(c));
            }
        }
        if exists|k: int| 0 <= k < sets.len() && (#[trigger] sets[k]).contains(c) {
            let k = choose|k: int| 0 <= k < sets.len() && (#[trigger] sets[k]).contains(c);
            if k < d.len() {
                assert(d[k] == sets[k]);
                let j = choose|j: int| 0 <= j < a.len() && a[j] == c;
                assert((a + b)[j] == c);
            } else {
                let j = choose|j: int| 0 <= j < b.len() && b[j] == c;
                assert((a + b)[a.len() + j] == c);
            }
        }
    }
}

/// A generated password has the length that was asked for, within 4 and 256, at least one
/// character of each kind that was asked for, and no character of any other kind. One is
/// generated wherever some kind was asked for.
pub proof fn law_password_is_as_ordered(o: &GeneratorOptions, r: Result<String, String>, i: int)
    requires
        call_ensures(generate_password, (o,), r),
    ensures
        r is Ok <==> o.use_lowercase || o.use_uppercase || o.use_numbers || o.use_symbols,
        r matches Ok(s) ==> {
            &&& 4 <= o.length <= 256 ==> s@.len() == o.length
            &&& o.length < 4 ==> s@.len() == 4
            &&& o.length > 256 ==> s@.len() == 256
            &&& o.use_lowercase ==> exists|k: int| 0 <= k < s@.len() && small(#[trigger] s@[k])
            &&& o.use_uppercase ==> exists|k: int| 0 <= k < s@.len() && capital(#[trigger] s@[k])
            &&& o.use_numbers ==> exists|k: int| 0 <= k < s@.len() && figure(#[trigger] s@[k])
            &&& o.use_symbols ==> exists|k: int| 0 <= k < s@.len() && symbol(#[trigger] s@[k])
            &&& 0 <= i < s@.len() ==> ((small(s@[i]) && o.use_lowercase) || (capital(s@[i])
                && o.use_uppercase) || (figure(s@[i]) && o.use_numbers) || (symbol(s@[i])
                && o.use_symbols))
        },
{
    lemma_sets();
    let sets = selected(*o);
    let a = "abcdefghijkmnopqrstuvwxyz"@;
    let b = "ABCDEFGHJKLMNPQRSTUVWXYZ"@;
    let c = "23456789"@;
    let d = "!@#$%^&*()_+-=[]{};:,.<>?"@;
    let n1: int = if o.use_lowercase {
        1
    } else {
        0
    };
    let n2: int = n1 + (if o.use_uppercase {
        1int
    } else {
        0
    });
    let n3: int = n2 + (if o.use_numbers {
        1int
    } else {
        0
    });
    assert(o.use_lowercase ==> sets[0] == a);
    assert(o.use_uppercase ==> sets[n1] == b);
    assert(o.use_numbers ==> sets[n2] == c);
    assert(o.use_symbols ==> sets[n3] == d);
    assert(sets.len() == n3 + (if o.use_symbols {
        1int
    } else {
        0
    }));
    if r is Ok {
        let s = r->Ok_0@;
        assert(made_to(s, *o));
        if o.use_lowercase {
            assert(sets[0] == a);
            let k = choose|k: int| 0 <= k < s.len() && (#[trigger] sets[0]).contains(#[trigger] s[k]);
            assert(small(s[k]));
        }
        if o.use_uppercase {
            assert(sets[n1] == b);
            let k = choose|k: int| 0 <= k < s.len() && (#[trigger] sets[n1]).contains(#[trigger] s[k]);
            assert(capital(s[k]));
        }
        if o.use_numbers {
            assert(sets[n2] == c);
            let k = choose|k: int| 0 <= k < s.len() && (#[trigger] sets[n2]).contains(#[trigger] s[k]);
            assert(figure(s[k]));
        }
        if o.use_symbols {
            assert(sets[n3] == d);
            let k = choose|k: int| 0 <= k < s.len() && (#[trigger] sets[n3]).contains(#[trigger] s[k]);
            assert(symbol(s[k]));
        }
        if 0 <= i < s.len() {
            lemma_pooled(sets, s[i]);
            assert(pooled(sets).contains(s[i]));
            let k = choose|k: int| 0 <= k < sets.len() && (#[trigger] sets[k]).contains(s[i]);
            if k < n1 {
                assert(sets[k] == a);
                assert(small(s[i]));
            } else if k < n2 {
                assert(sets[k] == b);
                assert(capital(s[i]));
            } else if k < n3 {
                assert(sets[k] == c);
                assert(figure(s[i]));
            } else {
                assert(sets[k] == d);
                assert(symbol(s[i]));
            }
        }
    }
}

/// Words with hyphens between them.
pub open spec fn chained(words: Seq<Seq<char>>) -> Seq<char>
    decreases words.len(),
{
    if words.len() == 0 {
        Seq::empty()
    } else if words.len() == 1 {
        words[0]
    } else {
        chained(words.drop_last()) + seq!['-'] + words.last()
    }
}

/// A passphrase is as many words of the list as were asked for, within 3 and 12, with hyphens
/// between them.
pub proof fn law_passphrase_is_words_of_the_list(list: &Vec<String>, count: usize, s: String)
    requires
        list@.len() > 0,
        call_ensures(generate_passphrase, (list, count), s),
    ensures
        exists|words: Seq<Seq<char>>|
            s@ == #[trigger] chained(words) && (3 <= count <= 12 ==> words.len() == count) && (count < 3
                ==> words.len() == 3) && (count > 12 ==> words.len() == 12) && forall|i: int|
                0 <= i < words.len() ==> texts(list@).contains(#[trigger] words[i]),
{
    let draws = choose|draws: Seq<usize>|
        picks(draws, list@.len(), count as int) && s@ == #[trigger] hyphenated(texts(list@), draws);
    let words = Seq::new(draws.len(), |i: int| texts(list@)[draws[i] as int]);
    lemma_chain(texts(list@), draws);
    assert forall|i: int| 0 <= i < words.len() implies texts(list@).contains(#[trigger] words[i]) by {
        assert(draws[i] < list@.len());
        assert(texts(list@)[draws[i] as int] == words[i]);
    }
    assert(s@ == chained(words));
}

/// Words that are drawn from a list and joined are those words with hyphens between them.
pub proof fn lemma_chain(list: Seq<Seq<char>>, draws: Seq<usize>)
    ensures
        hyphenated(list, draws) == chained(Seq::new(draws.len(), |i: int| list[draws[i] as int])),
    decreases draws.len(),
{
    let words = Seq::new(draws.len(), |i: int| list[draws[i] as int]);
    if draws.len() > 1 {
        let d = draws.drop_last();
        lemma_chain(list, d);
        assert(words.drop_last() =~= Seq::new(d.len(), |i: int| list[d[i] as int]));
    }
}

/// Tags are what stands between commas, without white space at the ends, each once, in the order
/// of their first occurrence; what is empty is no tag.
pub proof fn law_tags_stand_between_commas(category: &str, v: Vec<Vec<char>>, t: Seq<char>)
    requires
        call_ensures(split_tags, (category,), v),
    ensures
        rows(v@).contains(t) <==> t.len() > 0 && exists|i: int|
            0 <= i < split_on(category@, ',').len() && trimmed(
                #[trigger] split_on(category@, ',')[i],
            ) == t,
        rows(v@).no_duplicates(),
{
    lemma_tags(split_on(category@, ','), t);
    law_tags_are_distinct(category@);
}

proof fn lemma_tags(p: Seq<Seq<char>>, t: Seq<char>)
    ensures
        distinct_tags(p).contains(t) <==> t.len() > 0 && exists|i: int|
            0 <= i < p.len() && trimmed(#[trigger] p[i]) == t,
    decreases p.len(),
{
    if p.len() > 0 {
        let d = p.drop_last();
        lemma_tags(d, t);
        let a = distinct_tags(d);
        let b = distinct_tags(p);
        let x = trimmed(p.last());
        if a.contains(t) {
            let k = choose|k: int| 0 <= k < a.len() && a[k] == t;
            assert(b[k] == t);
            let i = choose|i: int| 0 <= i < d.len() && trimmed(#[trigger] d[i]) == t;
            assert(p[i] == d[i]);
        }
        if b.contains(t) {
            let k = choose|k: int| 0 <= k < b.len() && b[k] == t;
            if k < a.len() {
                assert(a[k] == t);
            } else {
                assert(trimmed(p[p.len() - 1]) == t);
            }
        }
        if t.len() > 0 && exists|i: int| 0 <= i < p.len() && trimmed(#[trigger] p[i]) == t {
            let i = choose|i: int| 0 <= i < p.len() && trimmed(#[trigger] p[i]) == t;
            if i < d.len() {
                assert(d[i] == p[i]);
                assert(a.contains(t));
            } else if !a.contains(t) {
                assert(b[b.len() - 1] == t);
            }
        }
    }
}

/// Normalized tags are the same tags, with a comma and a space between them; to normalize them
/// again changes nothing.
pub proof fn law_normalized_tags_are_the_same(
    category: &str,
    s: String,
    text: &str,
    again: String,
    before: Vec<Vec<char>>,
    after: Vec<Vec<char>>,
)
    requires
        call_ensures(normalize_tags, (category,), s),
        text@ == s@,
        call_ensures(normalize_tags, (text,), again),
        call_ensures(split_tags, (category,), before),
        call_ensures(split_tags, (text,), after),
    ensures
        again@ == s@,
        rows(after@) == rows(before@),
        before@.len() == 0 ==> s@.len() == 0,
        before@.len() == 1 ==> s@ == before@[0]@,
        before@.len() == 2 ==> s@ == before@[0]@ + seq![',', ' '] + before@[1]@,
{
    law_normalizing_is_idempotent(category@);
    let t = tags_of(category@);
    assert(rows(before@) == t && t.len() == before@.len());
    if before@.len() >= 1 {
        assert(t[0] == before@[0]@);
    }
    if before@.len() == 2 {
        assert(t[1] == before@[1]@);
        assert(t.drop_last().len() == 1);
        assert(t.drop_last()[0] == t[0]);
        assert(joined(t.drop_last()) == t[0]);
        assert(t.last() == t[1]);
    }
}

/// White space is cut off at both ends of a text, and nowhere else.
pub proof fn law_trimming_cuts_white_space_at_the_ends(
    s: &str,
    r: String,
    a: Seq<char>,
    t: Seq<char>,
    b: Seq<char>,
)
    requires
        call_ensures(trim_text, (s,), r),
        s@ == a + t + b,
        forall|i: int| 0 <= i < a.len() ==> white(#[trigger] a[i]),
        forall|i: int| 0 <= i < b.len() ==> white(#[trigger] b[i]),
        t.len() > 0 ==> !white(t[0]) && !white(t.last()),
    ensures
        r@ == t,
{
    lemma_trim_start(a, t + b);
    assert(a + t + b =~= a + (t + b));
    if t.len() > 0 {
        assert((t + b)[0] == t[0]);
        lemma_trim_end(t, b);
    } else {
        assert(t + b =~= b);
        lemma_trim_all(b);
    }
}

proof fn lemma_trim_start(a: Seq<char>, s: Seq<char>)
    requires
        forall|i: int| 0 <= i < a.len() ==> white(#[trigger] a[i]),
    ensures
        crate::text::trim_start(a + s) == crate::text::trim_start(s),
    decreases a.len(),
{
    if a.len() > 0 {
        assert((a + s)[0] == a[0]);
        assert((a + s).drop_first() =~= a.drop_first() + s);
        assert forall|i: int| 0 <= i < a.drop_first().len() implies white(#[trigger] a.drop_first()[i]) by {
            assert(a.drop_first()[i] == a[i + 1]);
        }
        lemma_trim_start(a.drop_first(), s);
    } else {
        assert(a + s =~= s);
    }
}

proof fn lemma_trim_end(t: Seq<char>, b: Seq<char>)
    requires
        forall|i: int| 0 <= i < b.len() ==> white(#[trigger] b[i]),
        t.len() > 0,
        !white(t.last()),
    ensures
        crate::text::trim_end(t + b) == t,
    decreases b.len(),
{
    if b.len() > 0 {
        assert((t + b).last() == b.last());
        assert(b[b.len() - 1] == b.last());
        assert((t + b).drop_last() =~= t + b.drop_last());
        lemma_trim_end(t, b.drop_last());
    } else {
        assert(t + b =~= t);
    }
}

proof fn lemma_trim_all(b: Seq<char>)
    requires
        forall|i: int| 0 <= i < b.len() ==> white(#[trigger] b[i]),
    ensures
        trimmed(b) == Seq::<char>::empty(),
    decreases b.len(),
{
    if b.len() > 0 {
        let d = b.drop_first();
        assert forall|i: int| 0 <= i < d.len() implies white(#[trigger] d[i]) by {
            assert(d[i] == b[i + 1]);
        }
        lemma_trim_all(d);
    } else {
        assert(b =~= Seq::<char>::empty());
    }
}

/// A number is written in decimal digits, and reads back as itself.
pub proof fn law_numbers_read_back(n: u64, s: String, v: &[char], r: Option<u64>)
    requires
        call_ensures(decimal_text, (n,), s),
        v@ == s@,
        call_ensures(parse_unsigned, (v, u64::MAX), r),
    ensures
        r == Some(n),
        s@.len() > 0,
        n < 10 ==> s@.len() == 1,
        forall|i: int| 0 <= i < s@.len() ==> '0' as int <= (#[trigger] s@[i]) as int <= '9' as int,
{
    lemma_decimal(n as nat);
    assert(s@[0] != '+');
}

proof fn lemma_decimal(n: nat)
    ensures
        digits_value(decimal(n)) == Some(n),
        decimal(n).len() > 0,
        forall|i: int| 0 <= i < decimal(n).len() ==> '0' as int <= (#[trigger] decimal(n)[i]) as int
            <= '9' as int,
    decreases n,
{
    let d = decimal(n);
    if n < 10 {
        assert(d.drop_last() =~= Seq::<char>::empty());
        assert(digits_value(d.drop_last()) == Some(0nat));
    } else {
        lemma_decimal(n / 10);
        assert(d.drop_last() =~= decimal(n / 10));
        assert(d.last() == crate::text::digit_char(n % 10));
        assert(10 * (n / 10) + n % 10 == n);
        assert forall|i: int| 0 <= i < d.len() implies '0' as int <= (#[trigger] d[i]) as int
            <= '9' as int by {
            if i < d.len() - 1 {
                assert(d[i] == decimal(n / 10)[i]);
            }
        }
    }
}

/// A lookup tells the service the first five digits of the password's hash, and nothing else.
pub proof fn law_lookup_sends_a_prefix(password: &str, url: String)
    requires
        call_ensures(hibp_url, (password,), url),
    ensures
        url@ == "https://api.pwnedpasswords.com/range/"@ + lookup_hash(password@).take(5),
        lookup_hash(password@).len() == 40,
{
}

/// A password is counted as the answer's first line with the rest of its hash says, case aside;
/// it is in no breach where no line has it.
pub proof fn law_breaches_are_those_of_the_hash(
    password: &str,
    body: &str,
    n: u64,
    k: int,
    times: Seq<char>,
    h: Seq<char>,
)
    requires
        call_ensures(check_hibp, (password, body), n),
        h == lookup_hash(password@).skip(5),
    ensures
        (forall|i: int| 0 <= i < lines(body@).len() ==> !names_hash(#[trigger] lines(body@)[i], h))
            ==> n == 0,
        0 <= k < lines(body@).len() && (forall|i: int|
            0 <= i < k ==> !names_hash(#[trigger] lines(body@)[i], h)) && is_line(
            lines(body@)[k],
            h,
            times,
        ) && unsigned_value(trimmed(times), u64::MAX as nat) is Some ==> n as nat == unsigned_value(
            trimmed(times),
            u64::MAX as nat,
        )->0,
        0 <= k < lines(body@).len() && (forall|i: int|
            0 <= i < k ==> !names_hash(#[trigger] lines(body@)[i], h)) && is_line(
            lines(body@)[k],
            h,
            times,
        ) && unsigned_value(trimmed(times), u64::MAX as nat) is None ==> n == 1,
{
    let l = lines(body@);
    lemma_first_line(l, h, k);
    assert forall|i: int| 0 <= i < l.len() implies (count_on(#[trigger] l[i], h) is Some) == names_hash(
        l[i],
        h,
    ) by {
        lemma_names(l[i], h);
    }
    if 0 <= k < l.len() && is_line(l[k], h, times) {
        lemma_is_line(l[k], h, times);
    }
    assert(n == count_among(l, h));
}

/// Whether a line of an answer is about a hash: what stands before its colon is its rest, case
/// aside.
pub open spec fn names_hash(line: Seq<char>, h: Seq<char>) -> bool {
    exists|t: Seq<char>| #[trigger] is_line(line, h, t)
}

/// Whether a line is the rest of a hash, a colon and a count.
pub open spec fn is_line(line: Seq<char>, h: Seq<char>, times: Seq<char>) -> bool {
    &&& line.len() == h.len() + 1 + times.len()
    &&& line[h.len() as int] == ':'
    &&& line.skip(h.len() as int + 1) == times
    &&& forall|i: int|
        0 <= i < h.len() ==> ascii_lowered(#[trigger] line[i]) == ascii_lowered(h[i]) && line[i]
            != ':'
}

proof fn lemma_is_line(line: Seq<char>, h: Seq<char>, times: Seq<char>)
    requires
        is_line(line, h, times),
    ensures
        count_on(line, h) is Some,
        unsigned_value(trimmed(times), u64::MAX as nat) is Some ==> count_on(line, h)->0 as nat
            == unsigned_value(trimmed(times), u64::MAX as nat)->0,
        unsigned_value(trimmed(times), u64::MAX as nat) is None ==> count_on(line, h) == Some(1u64),
{
    reveal(count_on);
    let k = first_at(line, ':');
    lemma_first_at(line, ':');
    assert(k == h.len()) by {
        if k < h.len() {
            assert(line[k] == ':');
        }
    }
    assert(same_but_case(line.take(k), h)) by {
        assert forall|i: int| 0 <= i < line.take(k).len() implies ascii_lowered(
            #[trigger] line.take(k)[i],
        ) == ascii_lowered(h[i]) by {
            assert(line.take(k)[i] == line[i]);
        }
    }
    lemma_value_fits(trimmed(times));
}

proof fn lemma_value_fits(s: Seq<char>)
    ensures
        unsigned_value(s, u64::MAX as nat) matches Some(n) ==> n <= u64::MAX,
{
}

proof fn lemma_names(line: Seq<char>, h: Seq<char>)
    ensures
        (count_on(line, h) is Some) == names_hash(line, h),
{
    reveal(count_on);
    let k = first_at(line, ':');
    lemma_first_at(line, ':');
    if names_hash(line, h) {
        let t = choose|t: Seq<char>| #[trigger] is_line(line, h, t);
        lemma_is_line(line, h, t);
    }
    if count_on(line, h) is Some {
        let t = line.skip(k + 1);
        assert(same_but_case(line.take(k), h));
        assert forall|i: int| 0 <= i < h.len() implies ascii_lowered(#[trigger] line[i])
            == ascii_lowered(h[i]) && line[i] != ':' by {
            assert(line.take(k)[i] == line[i]);
        }
        assert(is_line(line, h, t));
    }
}

proof fn lemma_first_line(l: Seq<Seq<char>>, h: Seq<char>, k: int)
    ensures
        (forall|i: int| 0 <= i < l.len() ==> count_on(#[trigger] l[i], h) is None) ==> count_among(l, h)
            == 0,
        0 <= k < l.len() && (forall|i: int| 0 <= i < k ==> count_on(#[trigger] l[i], h) is None)
            && count_on(l[k], h) is Some ==> count_among(l, h) == count_on(l[k], h)->0,
    decreases l.len(),
{
    if l.len() > 0 {
        let d = l.drop_first();
        lemma_first_line(d, h, k - 1);
        if forall|i: int| 0 <= i < l.len() ==> count_on(#[trigger] l[i], h) is None {
            assert(count_on(l[0], h) is None);
            assert forall|i: int| 0 <= i < d.len() implies count_on(#[trigger] d[i], h) is None by {
                assert(d[i] == l[i + 1]);
            }
        }
        if 0 < k < l.len() && (forall|i: int| 0 <= i < k ==> count_on(#[trigger] l[i], h) is None)
            && count_on(l[k], h) is Some {
            assert(count_on(l[0], h) is None);
            assert(d[k - 1] == l[k]);
            assert forall|i: int| 0 <= i < k - 1 implies count_on(#[trigger] d[i], h) is None by {
                assert(d[i] == l[i + 1]);
            }
        }
    }
}

/// Settings that are loaded are those of the file, but for a lock time under ten seconds and a
/// clipboard time outside of a second and an hour, which are moved to the nearest that is
/// allowed; where the file is missing or broken, they are the usual ones, and a broken file is
/// set aside.
pub proof fn law_settings_are_those_of_the_file(file: ConfigFile, r: (AppConfig, ConfigAction))
    requires
        call_ensures(AppConfig::load, (file,), r),
    ensures
        file matches ConfigFile::Parsed { config } ==> {
            &&& config.idle_timeout_seconds >= 10 ==> r.0.idle_timeout_seconds
                == config.idle_timeout_seconds
            &&& config.idle_timeout_seconds < 10 ==> r.0.idle_timeout_seconds == 10
            &&& 1 <= config.clipboard_clear_seconds <= 3600 ==> r.0.clipboard_clear_seconds
                == config.clipboard_clear_seconds
            &&& config.clipboard_clear_seconds < 1 ==> r.0.clipboard_clear_seconds == 1
            &&& config.clipboard_clear_seconds > 3600 ==> r.0.clipboard_clear_seconds == 3600
            &&& r.0.auto_sync == config.auto_sync
            &&& r.0.history_retention == config.history_retention
            &&& r.0.generator == config.generator
            &&& r.1 == ConfigAction::Keep
        },
        file is Missing ==> r.1 == ConfigAction::WriteDefaults,
        file is Broken ==> r.1 == ConfigAction::Quarantine,
        file is Missing || file is Broken ==> r.0.idle_timeout_seconds == 300
            && r.0.clipboard_clear_seconds == 5 && r.0.auto_sync && r.0.history_retention == 0
            && r.0.generator.length == 20 && r.0.generator.use_lowercase
            && r.0.generator.use_uppercase && r.0.generator.use_numbers
            && r.0.generator.use_symbols,
{
}

} // verus!
