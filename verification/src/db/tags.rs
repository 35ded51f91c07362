//! Tags: the comma-separated list in a record's category.
use vstd::prelude::*;
use vstd::string::*;

use crate::text::{
    chars_of, first_at, lemma_first_at, rows, split_chars, split_on, string_of, trim_chars, trim_end,
    trim_start, trimmed, white,
};

verus! {

/// The pieces of the list that say something, trimmed, each where it first occurs.
pub open spec fn distinct_tags(pieces: Seq<Seq<char>>) -> Seq<Seq<char>>
    decreases pieces.len(),
{
    if pieces.len() == 0 {
        Seq::empty()
    } else {
        let before = distinct_tags(pieces.drop_last());
        let t = trimmed(pieces.last());
        if t.len() == 0 || before.contains(t) {
            before
        } else {
            before.push(t)
        }
    }
}

/// The tags of a category.
pub open spec fn tags_of(category: Seq<char>) -> Seq<Seq<char>> {
    distinct_tags(split_on(category, ','))
}

/// The tags as one text, with a comma and a space between them.
pub open spec fn joined(tags: Seq<Seq<char>>) -> Seq<char>
    decreases tags.len(),
{
    if tags.len() == 0 {
        Seq::empty()
    } else if tags.len() == 1 {
        tags[0]
    } else {
        joined(tags.drop_last()) + seq![',', ' '] + tags.last()
    }
}

/// The normal form of a category.
pub open spec fn normalized(category: Seq<char>) -> Seq<char> {
    joined(tags_of(category))
}

fn contains_row(v: &[Vec<char>], t: &[char]) -> (b: bool)
    ensures
        b == rows(v@).contains(t@),
{
    let mut i: usize = 0;
    while i < v.len()
        invariant
            i <= v@.len(),
            forall|k: int| 0 <= k < i ==> (#[trigger] rows(v@)[k]) != t@,
        decreases v@.len() - i,
    {
        assert(rows(v@)[i as int] == v@[i as int]@);
        if v[i].len() == t.len() && crate::text::matches_at(v[i].as_slice(), 0, t) {
            assert(v@[i as int]@.skip(0) =~= v@[i as int]@);
            assert(v@[i as int]@.take(t@.len() as int) =~= v@[i as int]@);
            assert(rows(v@)[i as int] == t@);
            return true;
        }
        proof {
            if v@[i as int]@ == t@ {
                assert(t@.skip(0) =~= t@);
                assert(t@.take(t@.len() as int) =~= t@);
            }
        }
        i += 1;
    }
    false
}

/// The tags of a category.
pub fn split_tags(category: &str) -> (r: Vec<Vec<char>>)
    ensures
        rows(r@) == tags_of(category@),
{
    let v = chars_of(category);
    let pieces = split_chars(v.as_slice(), ',');
    let ghost all = rows(pieces@);
    let mut out: Vec<Vec<char>> = Vec::new();
    let mut i: usize = 0;
    assert(rows(out@) =~= distinct_tags(all.take(0)));
    while i < pieces.len()
        invariant
            i <= pieces@.len(),
            all == rows(pieces@),
            rows(out@) == distinct_tags(all.take(i as int)),
        decreases pieces@.len() - i,
    {
        assert(all.take(i + 1).drop_last() =~= all.take(i as int));
        assert(all.take(i + 1).last() == pieces@[i as int]@);
        let t = trim_chars(pieces[i].as_slice());
        if t.len() > 0 && !contains_row(out.as_slice(), t.as_slice()) {
            let ghost before = rows(out@);
            out.push(t);
            assert(rows(out@) =~= before.push(t@));
        }
        i += 1;
    }
    assert(all.take(i as int) =~= all);
    out
}

/// Puts a category in normal form: its tags trimmed, each once, with a comma and a space
/// between them.
pub fn normalize_tags(category: &str) -> (s: String)
    ensures
        s@ == normalized(category@),
{
    let tags = split_tags(category);
    let ghost all = rows(tags@);
    let mut s = String::new();
    let mut i: usize = 0;
    assert(all.take(0).len() == 0);
    while i < tags.len()
        invariant
            i <= tags@.len(),
            all == rows(tags@),
            s@ == joined(all.take(i as int)),
        decreases tags@.len() - i,
    {
        assert(all.take(i + 1).drop_last() =~= all.take(i as int));
        assert(all.take(i + 1).last() == tags@[i as int]@);
        let piece = string_of(tags[i].as_slice());
        if i > 0 {
            s.push(',');
            s.push(' ');
        }
        let ghost before = s@;
        s.append(piece.as_str());
        proof {
            if i == 0 {
                assert(s@ =~= tags@[0]@);
                assert(all.take(1)[0] == tags@[0]@);
            } else {
                assert(s@ =~= joined(all.take(i as int)) + seq![',', ' '] + piece@);
            }
        }
        i += 1;
    }
    assert(all.take(i as int) =~= all);
    s
}

proof fn lemma_trim_len(s: Seq<char>)
    ensures
        trim_start(s).len() <= s.len(),
        trim_end(s).len() <= s.len(),
        trim_start(s).len() == s.len() ==> trim_start(s) == s,
        forall|k: int| 0 <= k < trim_start(s).len() ==> s.contains(#[trigger] trim_start(s)[k]),
        forall|k: int| 0 <= k < trim_end(s).len() ==> s.contains(#[trigger] trim_end(s)[k]),
        trim_start(trim_start(s)) == trim_start(s),
        trim_end(trim_end(s)) == trim_end(s),
    decreases s.len(),
{
    if s.len() > 0 {
        let a = s.drop_first();
        let b = s.drop_last();
        lemma_trim_len(a);
        lemma_trim_len(b);
        assert forall|k: int| 0 <= k < trim_start(s).len() implies s.contains(
            #[trigger] trim_start(s)[k],
        ) by {
            if white(s[0]) {
                assert(a.contains(trim_start(a)[k]));
                let j = choose|j: int| 0 <= j < a.len() && a[j] == trim_start(a)[k];
                assert(s[j + 1] == trim_start(s)[k]);
            }
        }
        assert forall|k: int| 0 <= k < trim_end(s).len() implies s.contains(
            #[trigger] trim_end(s)[k],
        ) by {
            if white(s.last()) {
                assert(b.contains(trim_end(b)[k]));
                let j = choose|j: int| 0 <= j < b.len() && b[j] == trim_end(b)[k];
                assert(s[j] == trim_end(s)[k]);
            }
        }
    }
}

/// Whether a text can stand in a normal form: not empty, no white space at its ends, no comma.
pub open spec fn is_tag(t: Seq<char>) -> bool {
    t.len() > 0 && trimmed(t) == t && !t.contains(',')
}

proof fn lemma_trim_end_keeps_first(s: Seq<char>)
    ensures
        trim_end(s).len() > 0 ==> trim_end(s)[0] == s[0],
    decreases s.len(),
{
    if s.len() > 0 && white(s.last()) {
        lemma_trim_end_keeps_first(s.drop_last());
    }
}

proof fn lemma_trimmed_is_trimmed(s: Seq<char>)
    ensures
        trimmed(trimmed(s)) == trimmed(s),
{
    let a = trim_start(s);
    let b = trim_end(a);
    lemma_trim_len(s);
    lemma_trim_len(a);
    lemma_trim_end_keeps_first(a);
    lemma_trim_start_head(s);
    if b.len() > 0 {
        assert(trim_start(b) == b);
    } else {
        assert(trim_start(b) == b);
    }
}

proof fn lemma_trim_start_head(s: Seq<char>)
    ensures
        trim_start(s).len() > 0 ==> !white(trim_start(s)[0]),
    decreases s.len(),
{
    if s.len() > 0 && white(s[0]) {
        lemma_trim_start_head(s.drop_first());
    }
}

proof fn lemma_pieces_free(s: Seq<char>, sep: char)
    ensures
        forall|i: int| 0 <= i < split_on(s, sep).len() ==> !(#[trigger] split_on(s, sep)[i]).contains(
            sep,
        ),
    decreases s.len(),
{
    lemma_first_at(s, sep);
    let k = first_at(s, sep);
    if k < s.len() {
        lemma_pieces_free(s.skip(k + 1), sep);
        let rest = split_on(s.skip(k + 1), sep);
        assert forall|i: int| 0 <= i < split_on(s, sep).len() implies !(#[trigger] split_on(
            s,
            sep,
        )[i]).contains(sep) by {
            if i > 0 {
                assert(split_on(s, sep)[i] == rest[i - 1]);
            } else {
                assert(split_on(s, sep)[0] == s.take(k));
            }
        }
    }
}

proof fn lemma_split_free(t: Seq<char>, sep: char)
    requires
        !t.contains(sep),
    ensures
        first_at(t, sep) == t.len(),
        split_on(t, sep) == seq![t],
{
    lemma_first_at(t, sep);
    if first_at(t, sep) < t.len() {
        assert(t.contains(t[first_at(t, sep)]));
    }
}

proof fn lemma_first_at_append(s: Seq<char>, t: Seq<char>, sep: char)
    ensures
        first_at(s, sep) < s.len() ==> first_at(s + t, sep) == first_at(s, sep),
        first_at(s, sep) == s.len() ==> first_at(s + t, sep) == s.len() + first_at(t, sep),
    decreases s.len(),
{
    lemma_first_at(s, sep);
    if s.len() == 0 {
        assert(s + t =~= t);
    } else if s[0] != sep {
        assert((s + t).drop_first() =~= s.drop_first() + t);
        lemma_first_at(s.drop_first(), sep);
        lemma_first_at_append(s.drop_first(), t, sep);
    }
}

proof fn lemma_split_append(s: Seq<char>, t: Seq<char>, sep: char)
    requires
        !t.contains(sep),
    ensures
        split_on(s + (seq![sep] + t), sep) == split_on(s, sep).push(t),
    decreases s.len(),
{
    let tail = seq![sep] + t;
    let w = s + tail;
    lemma_first_at(s, sep);
    lemma_first_at_append(s, tail, sep);
    lemma_split_free(t, sep);
    let k = first_at(s, sep);
    if k == s.len() {
        assert(first_at(tail, sep) == 0);
        assert(w.take(k) =~= s);
        assert(w.skip(k + 1) =~= t);
        assert(split_on(w, sep) =~= seq![s, t]);
        assert(split_on(s, sep).push(t) =~= seq![s, t]);
    } else {
        assert(w.take(k) =~= s.take(k));
        assert(w.skip(k + 1) =~= s.skip(k + 1) + tail);
        lemma_split_append(s.skip(k + 1), t, sep);
        assert(split_on(w, sep) =~= split_on(s, sep).push(t));
    }
}

proof fn lemma_distinct_tags(pieces: Seq<Seq<char>>)
    requires
        forall|i: int| 0 <= i < pieces.len() ==> !(#[trigger] pieces[i]).contains(','),
    ensures
        forall|i: int|
            0 <= i < distinct_tags(pieces).len() ==> is_tag(#[trigger] distinct_tags(pieces)[i]),
        distinct_tags(pieces).no_duplicates(),
    decreases pieces.len(),
{
    if pieces.len() > 0 {
        let d = pieces.drop_last();
        assert forall|i: int| 0 <= i < d.len() implies !(#[trigger] d[i]).contains(',') by {
            assert(d[i] == pieces[i]);
        }
        lemma_distinct_tags(d);
        let before = distinct_tags(d);
        let last = pieces.last();
        let t = trimmed(last);
        lemma_trimmed_is_trimmed(last);
        lemma_trim_len(last);
        lemma_trim_len(trim_start(last));
        assert(!t.contains(',')) by {
            if t.contains(',') {
                let k = choose|k: int| 0 <= k < t.len() && t[k] == ',';
                assert(trim_start(last).contains(t[k]));
                let j = choose|j: int| 0 <= j < trim_start(last).len() && trim_start(last)[j] == ',';
                assert(last.contains(trim_start(last)[j]));
                assert(pieces[pieces.len() - 1].contains(','));
            }
        }
    }
}

/// Splitting a normal form gives its tags back.
proof fn lemma_joined_tags(tags: Seq<Seq<char>>)
    requires
        forall|i: int| 0 <= i < tags.len() ==> is_tag(#[trigger] tags[i]),
        tags.no_duplicates(),
        tags.len() > 0,
    ensures
        tags_of(joined(tags)) == tags,
    decreases tags.len(),
{
    let t = tags.last();
    assert(is_tag(tags[tags.len() - 1]));
    if tags.len() == 1 {
        lemma_split_free(t, ',');
        assert(distinct_tags(seq![t]) =~= tags) by {
            assert(seq![t].drop_last() =~= Seq::<Seq<char>>::empty());
            assert(distinct_tags(seq![t].drop_last()) =~= Seq::<Seq<char>>::empty());
        }
    } else {
        let d = tags.drop_last();
        assert forall|i: int| 0 <= i < d.len() implies is_tag(#[trigger] d[i]) by {
            assert(d[i] == tags[i]);
        }
        lemma_joined_tags(d);
        let spaced = seq![' '] + t;
        assert(!spaced.contains(',')) by {
            if spaced.contains(',') {
                let k = choose|k: int| 0 <= k < spaced.len() && spaced[k] == ',';
                assert(t[k - 1] == ',');
            }
        }
        assert(joined(tags) =~= joined(d) + (seq![','] + spaced));
        lemma_split_append(joined(d), spaced, ',');
        let pieces = split_on(joined(d), ',');
        assert(pieces.push(spaced).drop_last() =~= pieces);
        assert(spaced.drop_first() =~= t);
        assert(trim_start(spaced) == trim_start(t));
        assert(trimmed(spaced) == t);
        assert(!d.contains(t)) by {
            if d.contains(t) {
                let k = choose|k: int| 0 <= k < d.len() && d[k] == t;
                assert(tags[k] == tags[tags.len() - 1]);
            }
        }
        assert(d.push(t) =~= tags);
    }
}

/// Normalizing a normal form changes nothing, and keeps the tags.
pub proof fn law_normalizing_is_idempotent(category: Seq<char>)
    ensures
        normalized(normalized(category)) == normalized(category),
        tags_of(normalized(category)) == tags_of(category),
{
    lemma_pieces_free(category, ',');
    let tags = tags_of(category);
    lemma_distinct_tags(split_on(category, ','));
    if tags.len() > 0 {
        lemma_joined_tags(tags);
    } else {
        let e = Seq::<char>::empty();
        lemma_split_free(e, ',');
        assert(joined(tags) == e);
        assert(seq![e].drop_last() =~= Seq::<Seq<char>>::empty());
        assert(distinct_tags(seq![e].drop_last()) =~= Seq::<Seq<char>>::empty());
        assert(tags_of(e) =~= tags);
    }
}

/// Each tag of a category occurs once, says something, and has no white space at its ends.
pub proof fn law_tags_are_distinct(category: Seq<char>)
    ensures
        tags_of(category).no_duplicates(),
        forall|i: int| 0 <= i < tags_of(category).len() ==> is_tag(#[trigger] tags_of(category)[i]),
{
    lemma_pieces_free(category, ',');
    lemma_distinct_tags(split_on(category, ','));
}

} // verus!
