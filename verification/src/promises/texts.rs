//! Texts that are cut into pieces and lines.
use vstd::prelude::*;

use crate::cli::join_texts;
use crate::text::{
    debug_text, first_at, is_white, lemma_first_at, lines, lines_of, rows, same_text, split_chars,
    split_on, texts,
};

verus! {

/// Pieces with a character between them.
pub open spec fn rejoined(p: Seq<Seq<char>>, sep: char) -> Seq<char>
    decreases p.len(),
{
    if p.len() == 0 {
        Seq::empty()
    } else if p.len() == 1 {
        p[0]
    } else {
        p[0] + seq![sep] + rejoined(p.drop_first(), sep)
    }
}

proof fn lemma_split(s: Seq<char>, sep: char)
    ensures
        split_on(s, sep).len() > 0,
        rejoined(split_on(s, sep), sep) == s,
        forall|i: int| 0 <= i < split_on(s, sep).len() ==> !(#[trigger] split_on(s, sep)[i]).contains(sep),
    decreases s.len(),
{
    lemma_first_at(s, sep);
    let k = first_at(s, sep);
    let p = split_on(s, sep);
    if k == s.len() {
        assert(p == seq![s]);
        assert(!s.contains(sep)) by {
            if s.contains(sep) {
                let j = choose|j: int| 0 <= j < s.len() && s[j] == sep;
                assert(s[j] != sep);
            }
        }
    } else {
        let rest = s.skip(k + 1);
        lemma_split(rest, sep);
        let q = split_on(rest, sep);
        assert(p == seq![s.take(k)] + q);
        assert(p.drop_first() =~= q);
        assert(s =~= s.take(k) + seq![sep] + rest);
        assert forall|i: int| 0 <= i < p.len() implies !(#[trigger] p[i]).contains(sep) by {
            if i == 0 {
                if p[0].contains(sep) {
                    let j = choose|j: int| 0 <= j < p[0].len() && p[0][j] == sep;
                    assert(s[j] == sep);
                }
            } else {
                assert(p[i] == q[i - 1]);
            }
        }
    }
}

/// A text is cut at every occurrence of a character: the pieces do not have it, and with it
/// between them they are the text.
pub proof fn law_pieces_make_up_the_text(v: &[char], sep: char, r: Vec<Vec<char>>, i: int)
    requires
        call_ensures(split_chars, (v, sep), r),
        0 <= i < r@.len(),
    ensures
        rejoined(rows(r@), sep) == v@,
        !r@[i]@.contains(sep),
{
    lemma_split(v@, sep);
    assert(rows(r@)[i] == r@[i]@);
}

proof fn lemma_split_first(a: Seq<char>, sep: char, b: Seq<char>)
    requires
        !a.contains(sep),
    ensures
        split_on(a + seq![sep] + b, sep) == seq![a] + split_on(b, sep),
{
    let s = a + seq![sep] + b;
    lemma_first_at(s, sep);
    let k = first_at(s, sep);
    assert(s[a.len() as int] == sep);
    assert(k == a.len()) by {
        if k < a.len() {
            assert(s[k] == a[k]);
            assert(a.contains(a[k]));
        }
    }
    assert(s.take(k) =~= a);
    assert(s.skip(k + 1) =~= b);
}

proof fn lemma_split_none(a: Seq<char>, sep: char)
    requires
        !a.contains(sep),
    ensures
        split_on(a, sep) == seq![a],
{
    lemma_first_at(a, sep);
    let k = first_at(a, sep);
    if k < a.len() {
        assert(a.contains(a[k]));
    }
}

/// A line goes up to a line end, which is not part of it, nor is a carriage return before it; the
/// rest of the text makes up the other lines. What follows the last line end is a line where it
/// is not empty.
pub proof fn law_lines_end_at_line_ends(s: &str, r: Vec<String>, a: Seq<char>, b: Seq<char>)
    requires
        call_ensures(lines_of, (s,), r),
        !a.contains('\n'),
    ensures
        s@ == a + seq!['\n'] + b && (a.len() == 0 || a.last() != '\r') ==> texts(r@) == seq![a] + lines(b),
        s@ == a + seq!['\r', '\n'] + b ==> texts(r@) == seq![a] + lines(b),
        s@ == a && a.len() > 0 ==> texts(r@) == seq![a],
        s@.len() == 0 ==> r@.len() == 0,
{
    if s@ == a + seq!['\n'] + b && (a.len() == 0 || a.last() != '\r') {
        lemma_split_first(a, '\n', b);
        lemma_line_first(a, s@, b);
        assert(texts(r@) =~= seq![a] + lines(b));
    }
    if s@ == a + seq!['\r', '\n'] + b {
        let c = a.push('\r');
        assert(!c.contains('\n')) by {
            if c.contains('\n') {
                let k = choose|k: int| 0 <= k < c.len() && c[k] == '\n';
                assert(a[k] == '\n');
            }
        }
        assert(s@ =~= c + seq!['\n'] + b);
        lemma_split_first(c, '\n', b);
        assert(c.drop_last() =~= a);
        lemma_line_first(c, s@, b);
        assert(texts(r@) =~= seq![a] + lines(b));
    }
    if s@ == a && a.len() > 0 {
        lemma_split_none(a, '\n');
        assert(texts(r@) =~= seq![a]);
    }
    if s@.len() == 0 {
        assert(!s@.contains('\n'));
        lemma_split_none(s@, '\n');
        assert(texts(r@).len() == 0);
    }
}

proof fn lemma_line_first(a: Seq<char>, s: Seq<char>, b: Seq<char>)
    requires
        split_on(s, '\n') == seq![a] + split_on(b, '\n'),
    ensures
        lines(s) == seq![crate::text::without_return(a)] + lines(b),
{
    lemma_split(b, '\n');
    let p = split_on(s, '\n');
    let q = split_on(b, '\n');
    let n = q.len() - 1;
    assert(p.len() == q.len() + 1);
    assert(p[p.len() - 1] == q[n]);
    assert forall|i: int| 0 <= i < n implies p[i + 1] == #[trigger] q[i] by {}
    assert(lines(s) =~= seq![crate::text::without_return(a)] + lines(b));
}

/// White space is what Unicode calls so: the tab, line ends, the blank, and the spaces, marks and
/// separators of other scripts.
pub proof fn law_white_space_is_that_of_unicode(c: char, r: bool)
    requires
        call_ensures(is_white, (c,), r),
    ensures
        r <==> (9 <= c as int <= 13 || c == ' ' || c == '\u{85}' || c == '\u{a0}' || c == '\u{1680}'
            || 0x2000 <= c as int <= 0x200a || c == '\u{2028}' || c == '\u{2029}' || c == '\u{202f}'
            || c == '\u{205f}' || c == '\u{3000}'),
{
}

/// Texts are joined in their order, with the separator between them.
pub proof fn law_joined_texts_keep_their_order(v: &Vec<String>, sep: &str, s: String)
    requires
        call_ensures(join_texts, (v, sep), s),
    ensures
        v@.len() == 0 ==> s@.len() == 0,
        v@.len() == 1 ==> s@ == v@[0]@,
        v@.len() == 2 ==> s@ == v@[0]@ + sep@ + v@[1]@,
        v@.len() == 3 ==> s@ == v@[0]@ + sep@ + v@[1]@ + sep@ + v@[2]@,
{
    let t = texts(v@);
    assert(t.len() == v@.len());
    if v@.len() >= 1 {
        assert(t[0] == v@[0]@);
    }
    if v@.len() == 2 {
        assert(t[1] == v@[1]@);
        assert(t.drop_last()[0] == t[0] && t.drop_last().len() == 1);
        assert(crate::cli::separated(t.drop_last(), sep@) == t[0]);
    }
    if v@.len() == 3 {
        assert(t[1] == v@[1]@ && t[2] == v@[2]@);
        let d = t.drop_last();
        let e = d.drop_last();
        assert(e.len() == 1 && e[0] == t[0] && d.last() == t[1]);
        assert(crate::cli::separated(e, sep@) == t[0]);
        assert(crate::cli::separated(d, sep@) == t[0] + sep@ + t[1]);
    }
}

/// A path in a message stands between quotes.
pub proof fn law_plain_texts_are_quoted(s: &str, r: String)
    requires
        call_ensures(debug_text, (s,), r),
        forall|i: int|
            0 <= i < s@.len() ==> 32 <= (#[trigger] s@[i]) as int <= 126 && s@[i] != '"' && s@[i] != '\\',
    ensures
        r@ == seq!['"'] + s@ + seq!['"'],
{
}

/// Texts are the same where all their characters are.
pub proof fn law_same_texts(a: &str, b: &str, r: bool)
    requires
        call_ensures(same_text, (a, b), r),
    ensures
        r <==> a@.len() == b@.len() && forall|i: int| 0 <= i < a@.len() ==> #[trigger] a@[i] == b@[i],
{
    if a@.len() == b@.len() && forall|i: int| 0 <= i < a@.len() ==> #[trigger] a@[i] == b@[i] {
        assert(a@ =~= b@);
    }
}

} // verus!
