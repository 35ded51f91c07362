//! Program versions and the compatibility floor of a vault.
use vstd::prelude::*;
use vstd::string::*;

use crate::text::{chars_of, parse_unsigned, rows, split_chars, split_on, trim_chars, trimmed, unsigned_value};

verus! {

/// The floor that this version stamps on every vault it opens: older programs cannot find the
/// salt, which lives in the header of the database file.
pub const MIN_COMPATIBLE_APP_VERSION: &'static str = "0.3.6";

/// A parsed `MAJOR.MINOR.PATCH` version; a text of any other shape is none.
pub open spec fn version_of(s: Seq<char>) -> Option<(nat, nat, nat)> {
    let parts = split_on(trimmed(s), '.');
    if parts.len() != 3 {
        None
    } else {
        match (
            unsigned_value(parts[0], u32::MAX as nat),
            unsigned_value(parts[1], u32::MAX as nat),
            unsigned_value(parts[2], u32::MAX as nat),
        ) {
            (Some(a), Some(b), Some(c)) => Some((a, b, c)),
            _ => None,
        }
    }
}

/// Whether version `a` is `b` or later: by major, then minor, then patch number.
pub open spec fn at_least(a: (nat, nat, nat), b: (nat, nat, nat)) -> bool {
    a.0 > b.0 || (a.0 == b.0 && (a.1 > b.1 || (a.1 == b.1 && a.2 >= b.2)))
}

/// Whether a program of version `running` may open what requires version `required`. A text
/// that is no version blocks nobody.
pub open spec fn satisfies(running: Seq<char>, required: Seq<char>) -> bool {
    match (version_of(running), version_of(required)) {
        (Some(a), Some(b)) => at_least(a, b),
        _ => true,
    }
}

/// Reads a `MAJOR.MINOR.PATCH` version.
pub fn parse_version(s: &str) -> (r: Option<(u32, u32, u32)>)
    ensures
        r matches Some(v) ==> version_of(s@) == Some((v.0 as nat, v.1 as nat, v.2 as nat)),
        r is None ==> version_of(s@) is None,
{
    let v = chars_of(s);
    let t = trim_chars(v.as_slice());
    let parts = split_chars(t.as_slice(), '.');
    let ghost spec_parts = split_on(trimmed(s@), '.');
    assert(parts@.len() == spec_parts.len()) by {
        assert(rows(parts@).len() == parts@.len());
    }
    if parts.len() != 3 {
        return None;
    }
    assert(rows(parts@)[0] == parts@[0]@);
    assert(rows(parts@)[1] == parts@[1]@);
    assert(rows(parts@)[2] == parts@[2]@);
    let a = parse_unsigned(parts[0].as_slice(), u32::MAX as u64);
    let b = parse_unsigned(parts[1].as_slice(), u32::MAX as u64);
    let c = parse_unsigned(parts[2].as_slice(), u32::MAX as u64);
    match (a, b, c) {
        (Some(x), Some(y), Some(z)) => Some((x as u32, y as u32, z as u32)),
        _ => None,
    }
}

/// Whether `running_version` is new enough for `required_version`.
pub fn version_satisfies(running_version: &str, required_version: &str) -> (r: bool)
    ensures
        r == satisfies(running_version@, required_version@),
{
    match (parse_version(running_version), parse_version(required_version)) {
        (Some(a), Some(b)) => a.0 > b.0 || (a.0 == b.0 && (a.1 > b.1 || (a.1 == b.1 && a.2 >= b.2))),
        _ => true,
    }
}

/// The floor after this version has opened a vault with the given one.
pub open spec fn raised_floor(stored: Option<Seq<char>>) -> Seq<char> {
    match stored {
        None => MIN_COMPATIBLE_APP_VERSION@,
        Some(s) => if satisfies(s, MIN_COMPATIBLE_APP_VERSION@) {
            s
        } else {
            MIN_COMPATIBLE_APP_VERSION@
        },
    }
}

/// Stamps the floor of this version, raising a lower one.
pub fn raise_floor(stored: &Option<String>) -> (r: String)
    ensures
        r@ == raised_floor(crate::db::records::text_opt(*stored)),
{
    match stored {
        None => MIN_COMPATIBLE_APP_VERSION.to_owned(),
        Some(s) => if version_satisfies(s.as_str(), MIN_COMPATIBLE_APP_VERSION) {
            s.clone()
        } else {
            MIN_COMPATIBLE_APP_VERSION.to_owned()
        },
    }
}

/// A floor is never lowered: the new one satisfies the old.
pub proof fn law_floor_is_never_lowered(stored: Seq<char>)
    ensures
        satisfies(raised_floor(Some(stored)), stored),
{
}

/// After stamping, the floor is at least that of this version, unless it is no version.
pub proof fn law_floor_reaches_this_version(stored: Option<Seq<char>>)
    ensures
        satisfies(raised_floor(stored), MIN_COMPATIBLE_APP_VERSION@),
{
}

/// The refusal of a vault that needs a newer program.
pub open spec fn too_old_message(what: Seq<char>, verb: Seq<char>, required: Seq<char>, running: Seq<
    char,
>) -> Seq<char> {
    what + " requires KeyStash v"@ + required + " or newer to "@ + verb + ". You are running v"@
        + running + ". Please update KeyStash and try again."@
}

/// Words the refusal of a vault that needs a newer program.
pub fn word_too_old(what: &str, verb: &str, required: &str, running: &str) -> (s: String)
    ensures
        s@ == too_old_message(what@, verb@, required@, running@),
{
    let mut s = what.to_owned();
    s.append(" requires KeyStash v");
    s.append(required);
    s.append(" or newer to ");
    s.append(verb);
    s.append(". You are running v");
    s.append(running);
    s.append(". Please update KeyStash and try again.");
    s
}

} // verus!
