//! Finding credentials, showing and copying their fields.
use vstd::prelude::*;
use vstd::utf8::*;

use crate::cli::{list_notes, list_secret, matches_query, search_records, text_to_copy};
use crate::crypto::{lemma_text_round_trip, opened};
use crate::db::records::{records, RecordView, SecretRecord};
use crate::lists::lemma_filter_members;
use crate::promises::records::reads;
use crate::text::{ascii_lowered, has_prefix, lower, lower_text, occurs, occurs_in};

verus! {

/// A record is found if the query occurs, in lower case, in its title, in its tags, in its
/// username or in its address, and only then.
pub proof fn law_search_looks_in_four_fields(
    all: &Vec<SecretRecord>,
    query: &str,
    out: Vec<SecretRecord>,
    i: int,
)
    requires
        call_ensures(search_records, (all, query), out),
        0 <= i < all@.len(),
    ensures
        occurs(lower(all@[i].title@), lower(query@)) ==> records(out@).contains(all@[i]@),
        occurs(lower(all@[i].category@), lower(query@)) ==> records(out@).contains(all@[i]@),
        occurs(lower(all@[i].username@), lower(query@)) ==> records(out@).contains(all@[i]@),
        occurs(lower(all@[i].url@), lower(query@)) ==> records(out@).contains(all@[i]@),
        !occurs(lower(all@[i].title@), lower(query@)) && !occurs(
            lower(all@[i].category@),
            lower(query@),
        ) && !occurs(lower(all@[i].username@), lower(query@)) && !occurs(
            lower(all@[i].url@),
            lower(query@),
        ) ==> !records(out@).contains(all@[i]@),
        out@.len() <= all@.len(),
        forall|s: RecordView| #[trigger] records(out@).contains(s) ==> records(all@).contains(s),
{
    let p = |r: RecordView| matches_query(r, lower(query@));
    let s = records(all@);
    lemma_filter_members(s, p);
    assert(s[i] == all@[i]@);
    assert(s.contains(s[i]));
    assert(records(out@).len() == out@.len());
    assert(s.len() == all@.len());
}

/// A record whose title, tags, username or address is the query is found, and an empty query
/// finds every record.
pub proof fn law_exact_matches_are_found(
    all: &Vec<SecretRecord>,
    query: &str,
    out: Vec<SecretRecord>,
    i: int,
)
    requires
        call_ensures(search_records, (all, query), out),
        0 <= i < all@.len(),
        query@.len() == 0 || all@[i].title@ == query@ || all@[i].category@ == query@
            || all@[i].username@ == query@ || all@[i].url@ == query@,
    ensures
        records(out@).contains(all@[i]@),
{
    law_search_looks_in_four_fields(all, query, out, i);
    let q = lower(query@);
    assert(q.skip(0) =~= q && q.take(q.len() as int) =~= q);
    assert(has_prefix(q.skip(0), q));
    assert(occurs(q, q));
    if query@.len() == 0 {
        assert(q.len() == 0);
        let t = lower(all@[i].title@);
        assert(t.skip(0).take(0) =~= q);
        assert(has_prefix(t.skip(0), q));
        assert(occurs(t, q));
    }
}

/// What surrounds the query in a field does not matter.
pub proof fn law_query_is_found_within(before: Seq<char>, query: Seq<char>, after: Seq<char>)
    ensures
        occurs(before + query + after, query),
{
    let h = before + query + after;
    let k = before.len() as int;
    assert(h.skip(k).take(query.len() as int) =~= query);
    assert(has_prefix(h.skip(k), query));
}

/// A text occurs in another exactly where the other is something, the text, and something.
pub proof fn law_occurrence_is_containment(hay: &[char], needle: &[char], r: bool)
    requires
        call_ensures(occurs_in, (hay, needle), r),
    ensures
        r <==> exists|a: Seq<char>, b: Seq<char>| hay@ == #[trigger] (a + needle@ + b),
{
    if r {
        let i = choose|i: int|
            0 <= i <= hay@.len() && has_prefix(#[trigger] hay@.skip(i), needle@);
        let a = hay@.take(i);
        let b = hay@.skip(i + needle@.len());
        assert(hay@.skip(i).take(needle@.len() as int) == needle@);
        assert forall|k: int| 0 <= k < needle@.len() implies hay@[i + k] == needle@[k] by {
            assert(hay@.skip(i).take(needle@.len() as int)[k] == needle@[k]);
        }
        assert(hay@ =~= (a + needle@) + b);
    }
    if exists|a: Seq<char>, b: Seq<char>| hay@ == #[trigger] (a + needle@ + b) {
        let (a, b) = choose|a: Seq<char>, b: Seq<char>| hay@ == #[trigger] (a + needle@ + b);
        law_query_is_found_within(a, needle@, b);
    }
}

/// Lower case: of an ASCII text each of the letters A to Z becomes its small counterpart, and
/// every other character stays.
pub proof fn law_lower_case_is_per_letter(s: &str, r: String, i: int)
    requires
        call_ensures(lower_text, (s,), r),
        is_ascii_chars(s@),
        0 <= i < s@.len(),
    ensures
        r@.len() == s@.len(),
        65 <= s@[i] as int <= 90 ==> r@[i] as int == s@[i] as int + 32,
        !(65 <= s@[i] as int <= 90) ==> r@[i] == s@[i],
{
    assert(r@[i] == ascii_lowered(s@[i]));
}

/// In a listing without the wish to reveal, a payload shows the same whatever it holds; with the
/// wish it shows the text that was stored.
pub proof fn law_listing_reveals_on_request_only(
    a: &[u8],
    b: &[u8],
    key: &[u8; 32],
    hidden_a: String,
    hidden_b: String,
    open_a: String,
    text: Seq<char>,
)
    requires
        call_ensures(list_secret, (a, key, false), hidden_a),
        call_ensures(list_secret, (b, key, false), hidden_b),
        call_ensures(list_secret, (a, key, true), open_a),
    ensures
        hidden_a@ == hidden_b@,
        hidden_a@ == "••••••••"@,
        reads(a@, key@, text) ==> open_a@ == text,
        opened(a@, key@) is Err ==> open_a@ == "<Error>"@,
{
    if reads(a@, key@, text) {
        lemma_text_round_trip(text);
    }
}

/// The same holds of notes, where there are some.
pub proof fn law_listed_notes_reveal_on_request_only(
    a: &Option<Vec<u8>>,
    key: &[u8; 32],
    hidden: String,
    open: String,
    text: Seq<char>,
)
    requires
        call_ensures(list_notes, (a, key, false), hidden),
        call_ensures(list_notes, (a, key, true), open),
    ensures
        a is Some ==> hidden@ == "••••••••"@,
        a matches Some(d) && reads(d@, key@, text) ==> open@ == text,
        a is None ==> hidden@ == "[No Notes]"@ && open@ == "[No Notes]"@,
{
    if a is Some && reads(a->0@, key@, text) {
        lemma_text_round_trip(text);
    }
}

/// A copied field is the one that was asked for; without a name it is the password.
pub proof fn law_copied_field_is_the_one_named(
    r: &SecretRecord,
    field: Option<&String>,
    key: &[u8; 32],
    t: Result<Option<String>, String>,
    password: Seq<char>,
)
    requires
        call_ensures(text_to_copy, (r, field, key), t),
    ensures
        field matches Some(f) && (f@ == "username"@ || f@ == "user"@) ==> (t matches Ok(Some(x))
            && x@ == r.username@),
        field matches Some(f) && f@ == "url"@ ==> (t matches Ok(Some(x)) && x@ == r.url@),
        (field is None || field->0@ == "password"@ || field->0@ == "pass"@) && reads(
            r.encrypted_password@,
            key@,
            password,
        ) ==> (t matches Ok(Some(x)) && x@ == password),
        (field is None || field->0@ == "password"@ || field->0@ == "pass"@) && opened(
            r.encrypted_password@,
            key@,
        ) is Err ==> (t matches Ok(None)),
        field matches Some(f) && f@ != "username"@ && f@ != "user"@ && f@ != "url"@ && f@
            != "password"@ && f@ != "pass"@ ==> t is Err,
{
    if reads(r.encrypted_password@, key@, password) {
        lemma_text_round_trip(password);
    }
    reveal_strlit("username");
    reveal_strlit("user");
    reveal_strlit("url");
    reveal_strlit("password");
    reveal_strlit("pass");
    assert("password"@ != "username"@) by {
        assert("password"@[0] != "username"@[0]);
    }
    assert("password"@.len() != "user"@.len() && "password"@.len() != "url"@.len());
    assert("pass"@[0] != "user"@[0]);
    assert("url"@.len() != "user"@.len() && "url"@.len() != "username"@.len());
    assert("pass"@.len() != "url"@.len() && "pass"@.len() != "username"@.len());
}

} // verus!
