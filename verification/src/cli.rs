//! The command line: what is asked for, and how records are listed.
use vstd::prelude::*;
use vstd::string::*;

use crate::audit::Severity;
use crate::conflicts::shown;
use crate::crypto::{decrypt, lossy_text, opened, text_of};
use crate::db::records::{records, RecordView, SecretRecord};
use crate::generator::{bounded, clamp, GeneratorOptions, DEFAULT_WORDS, MAX_LENGTH, MIN_LENGTH};
use crate::lists::lemma_filter_step;
use crate::text::{
    chars_of, decimal, decimal_text, lower, lower_text, occurs, occurs_in, parse_unsigned, part,
    same_text, string_of, texts, trim_text, trimmed, unsigned_value,
};

verus! {

/// The first `max_chars` characters of a text.
pub fn truncate_chars(s: &str, max_chars: usize) -> (r: String)
    ensures
        r@ == (if s@.len() <= max_chars {
            s@
        } else {
            s@.take(max_chars as int)
        }),
{
    let v = chars_of(s);
    if v.len() <= max_chars {
        s.to_owned()
    } else {
        let head = part(v.as_slice(), 0, max_chars);
        assert(head@ =~= s@.take(max_chars as int));
        string_of(head.as_slice())
    }
}

/// Whether an argument asks for passwords to be shown.
pub open spec fn is_reveal(a: Seq<char>) -> bool {
    a == "--reveal"@ || a == "-r"@
}

/// Whether some argument asks for passwords to be shown.
pub open spec fn asks_reveal(args: Seq<Seq<char>>) -> bool {
    exists|i: int| 0 <= i < args.len() && is_reveal(#[trigger] args[i])
}

/// The first place of `a` from place `i` on.
pub open spec fn place_of(args: Seq<Seq<char>>, a: Seq<char>, i: int) -> Option<int>
    decreases args.len() - i,
{
    if i < 0 || i >= args.len() {
        None
    } else if args[i] == a {
        Some(i)
    } else {
        place_of(args, a, i + 1)
    }
}

/// The arguments in which a search looks for flags: those before the first `--`.
pub open spec fn before_dashes(args: Seq<Seq<char>>) -> Seq<Seq<char>> {
    match place_of(args, "--"@, 0) {
        Some(i) => args.take(i),
        None => args,
    }
}

/// The first place from place `i` on of what does not ask for passwords to be shown.
pub open spec fn place_of_other(args: Seq<Seq<char>>, i: int) -> Option<int>
    decreases args.len() - i,
{
    if i < 0 || i >= args.len() {
        None
    } else if !is_reveal(args[i]) {
        Some(i)
    } else {
        place_of_other(args, i + 1)
    }
}

/// Which argument is the search query: what follows `--` if that is there, whatever it looks
/// like; else the first argument that is no known flag.
pub open spec fn query_place(args: Seq<Seq<char>>) -> Option<int> {
    match place_of(args, "--"@, 0) {
        Some(i) => if i + 1 < args.len() {
            Some(i + 1)
        } else {
            None
        },
        None => place_of_other(args, 0),
    }
}

fn is_reveal_flag(a: &str) -> (b: bool)
    ensures
        b == is_reveal(a@),
{
    same_text(a, "--reveal") || same_text(a, "-r")
}

/// Whether one of the first `n` arguments asks for passwords to be shown.
fn reveals_within(args: &Vec<String>, n: usize) -> (b: bool)
    requires
        n <= args@.len(),
    ensures
        b == asks_reveal(texts(args@).take(n as int)),
{
    let ghost t = texts(args@).take(n as int);
    let mut i: usize = 0;
    while i < n
        invariant
            i <= n <= args@.len(),
            t == texts(args@).take(n as int),
            forall|k: int| 0 <= k < i ==> !is_reveal(#[trigger] t[k]),
        decreases n - i,
    {
        assert(t[i as int] == args@[i as int]@);
        if is_reveal_flag(args[i].as_str()) {
            return true;
        }
        i += 1;
    }
    false
}

/// Whether some argument asks for passwords to be shown.
pub fn wants_reveal(args: &Vec<String>) -> (b: bool)
    ensures
        b == asks_reveal(texts(args@)),
{
    assert(texts(args@).take(args@.len() as int) =~= texts(args@));
    reveals_within(args, args.len())
}

fn find_arg(args: &Vec<String>, a: &str) -> (r: Option<usize>)
    ensures
        r matches Some(i) ==> place_of(texts(args@), a@, 0) == Some(i as int) && i < args@.len(),
        r is None ==> place_of(texts(args@), a@, 0) is None,
{
    let ghost t = texts(args@);
    let mut i: usize = 0;
    while i < args.len()
        invariant
            i <= args@.len(),
            t == texts(args@),
            place_of(t, a@, 0) == place_of(t, a@, i as int),
        decreases args@.len() - i,
    {
        assert(t[i as int] == args@[i as int]@);
        if same_text(args[i].as_str(), a) {
            return Some(i);
        }
        i += 1;
    }
    None
}

fn find_other(args: &Vec<String>) -> (r: Option<usize>)
    ensures
        r matches Some(i) ==> place_of_other(texts(args@), 0) == Some(i as int) && i < args@.len(),
        r is None ==> place_of_other(texts(args@), 0) is None,
{
    let ghost t = texts(args@);
    let mut i: usize = 0;
    while i < args.len()
        invariant
            i <= args@.len(),
            t == texts(args@),
            place_of_other(t, 0) == place_of_other(t, i as int),
        decreases args@.len() - i,
    {
        assert(t[i as int] == args@[i as int]@);
        if !is_reveal_flag(args[i].as_str()) {
            return Some(i);
        }
        i += 1;
    }
    None
}

/// The place of the query among the arguments of a search, and whether passwords are to be shown.
fn read_search(rest: &Vec<String>) -> (r: (Option<usize>, bool))
    ensures
        r.0 matches Some(i) ==> query_place(texts(rest@)) == Some(i as int) && i < rest@.len(),
        r.0 is None ==> query_place(texts(rest@)) is None,
        r.1 == asks_reveal(before_dashes(texts(rest@))),
{
    assert(texts(rest@).len() == rest@.len());
    let n: usize = rest.len();
    match find_arg(rest, "--") {
        Some(i) => {
            let place: Option<usize> = if i < n - 1 {
                Some(i + 1)
            } else {
                None
            };
            (place, reveals_within(rest, i))
        },
        None => (find_other(rest), wants_reveal(rest)),
    }
}

/// The query among the arguments of a search, and whether passwords are to be shown. Flags stand
/// before the first `--`; what follows it is the query as it is.
pub fn parse_search_args(rest: &Vec<String>) -> (r: (Option<&String>, bool))
    ensures
        match query_place(texts(rest@)) {
            Some(i) => r.0 == Some(&rest@[i]) && 0 <= i < rest@.len(),
            None => r.0 is None,
        },
        r.1 == asks_reveal(before_dashes(texts(rest@))),
{
    let (place, reveal) = read_search(rest);
    match place {
        Some(i) => (Some(&rest[i]), reveal),
        None => (None, reveal),
    }
}

/// Whether a record matches a search: one of its texts contains the query, in lower case.
pub open spec fn matches_query(r: RecordView, query: Seq<char>) -> bool {
    occurs(lower(r.title), query) || occurs(lower(r.category), query) || occurs(
        lower(r.username),
        query,
    ) || occurs(lower(r.url), query)
}

fn contains_lower(text: &str, query: &[char]) -> (b: bool)
    ensures
        b == occurs(lower(text@), query@),
{
    let l = lower_text(text);
    let v = chars_of(l.as_str());
    occurs_in(v.as_slice(), query)
}

/// The records that match a search, which is compared in lower case.
pub fn search_records(all: &Vec<SecretRecord>, query: &str) -> (out: Vec<SecretRecord>)
    ensures
        records(out@) == records(all@).filter(|r: RecordView| matches_query(r, lower(query@))),
{
    let q_text = lower_text(query);
    let q = chars_of(q_text.as_str());
    let mut out: Vec<SecretRecord> = Vec::new();
    let ghost s = records(all@);
    let ghost p = |r: RecordView| matches_query(r, lower(query@));
    let mut i: usize = 0;
    proof {
        reveal(Seq::filter);
        assert(records(out@) =~= s.take(0).filter(p));
    }
    while i < all.len()
        invariant
            i <= all@.len(),
            q@ == lower(query@),
            s == records(all@),
            p == (|r: RecordView| matches_query(r, lower(query@))),
            records(out@) == s.take(i as int).filter(p),
        decreases all@.len() - i,
    {
        proof {
            lemma_filter_step(s, i as int, p);
        }
        let r = &all[i];
        assert(s[i as int] == r@);
        if contains_lower(r.title.as_str(), q.as_slice()) || contains_lower(
            r.category.as_str(),
            q.as_slice(),
        ) || contains_lower(r.username.as_str(), q.as_slice()) || contains_lower(
            r.url.as_str(),
            q.as_slice(),
        ) {
            let copy = r.clone();
            proof {
                crate::db::records::lemma_records_push(out@, copy);
            }
            out.push(copy);
        }
        i += 1;
    }
    assert(s.take(i as int) =~= s);
    out
}

/// Whether an answer is a yes.
pub fn is_yes(answer: &str) -> (b: bool)
    ensures
        b == (lower(trimmed(answer@)) == "y"@),
{
    same_text(lower_text(trim_text(answer).as_str()).as_str(), "y")
}

/// The whole number that a text writes: an optional sign, then at least one digit, in the range
/// of an `i64`.
pub open spec fn signed_value(s: Seq<char>) -> Option<int> {
    if s.len() > 0 && s[0] == '-' {
        match unsigned_value(s.drop_first(), 0x8000_0000_0000_0000) {
            Some(n) => if s.len() > 1 && s[1] == '+' {
                None
            } else {
                Some(-(n as int))
            },
            None => None,
        }
    } else {
        match unsigned_value(s, 0x7fff_ffff_ffff_ffff) {
            Some(n) => Some(n as int),
            None => None,
        }
    }
}

/// Reads a whole number.
pub fn parse_id(text: &str) -> (r: Option<i64>)
    ensures
        r matches Some(n) ==> signed_value(text@) == Some(n as int),
        r is None ==> signed_value(text@) is None,
{
    let v = chars_of(text);
    if v.len() > 0 && v[0] == '-' {
        let rest = part(v.as_slice(), 1, v.len());
        assert(rest@ =~= v@.drop_first());
        match parse_unsigned(rest.as_slice(), 0x8000_0000_0000_0000) {
            Some(n) => if v.len() > 1 && v[1] == '+' {
                None
            } else if n == 0x8000_0000_0000_0000 {
                Some(i64::MIN)
            } else {
                Some(-(n as i64))
            },
            None => None,
        }
    } else {
        match parse_unsigned(v.as_slice(), 0x7fff_ffff_ffff_ffff) {
            Some(n) => Some(n as i64),
            None => None,
        }
    }
}

/// What a run of the password generator is asked for.
#[derive(Debug, Clone, Copy, PartialEq, Eq, Structural)]
pub struct GeneratePlan {
    pub options: GeneratorOptions,
    /// Whether the options become the defaults.
    pub save: bool,
    /// How many words a passphrase is to have; `None` asks for a password.
    pub words: Option<usize>,
}

/// Why the arguments of the password generator are refused.
#[derive(Debug)]
pub enum GenerateError<'a> {
    InvalidLength { value: &'a String },
    MissingLength,
    UnknownOption { option: &'a String },
}

/// The number that an argument writes, if there is one and it is a number.
pub open spec fn number_at(args: Seq<String>, i: int) -> Option<nat> {
    if 0 <= i < args.len() {
        unsigned_value(args[i]@, usize::MAX as nat)
    } else {
        None
    }
}

/// The plan that the arguments from place `i` on lead to.
pub open spec fn plan_from(args: Seq<String>, i: int, p: GeneratePlan) -> Result<
    GeneratePlan,
    GenerateError<'static>,
>
    decreases args.len() - i,
{
    if i < 0 || i >= args.len() {
        Ok(p)
    } else {
        let a = args[i]@;
        if a == "--save"@ {
            plan_from(args, i + 1, GeneratePlan { save: true, ..p })
        } else if a == "--words"@ || a == "-w"@ {
            match number_at(args, i + 1) {
                Some(n) => plan_from(args, i + 2, GeneratePlan { words: Some(n as usize), ..p }),
                None => plan_from(args, i + 1, GeneratePlan { words: Some(DEFAULT_WORDS), ..p }),
            }
        } else if a == "-l"@ || a == "--length"@ {
            if i + 1 < args.len() {
                match number_at(args, i + 1) {
                    Some(n) => plan_from(
                        args,
                        i + 2,
                        GeneratePlan {
                            options: GeneratorOptions { length: n as usize, ..p.options },
                            ..p
                        },
                    ),
                    None => Err(GenerateError::InvalidLength { value: &args[i + 1] }),
                }
            } else {
                Err(GenerateError::MissingLength)
            }
        } else if a == "--no-uppercase"@ {
            plan_from(args, i + 1, with_options(p, Some(false), None, None))
        } else if a == "--no-numbers"@ {
            plan_from(args, i + 1, with_options(p, None, Some(false), None))
        } else if a == "--no-symbols"@ {
            plan_from(args, i + 1, with_options(p, None, None, Some(false)))
        } else if a == "--uppercase"@ {
            plan_from(args, i + 1, with_options(p, Some(true), None, None))
        } else if a == "--numbers"@ {
            plan_from(args, i + 1, with_options(p, None, Some(true), None))
        } else if a == "--symbols"@ {
            plan_from(args, i + 1, with_options(p, None, None, Some(true)))
        } else {
            Err(GenerateError::UnknownOption { option: &args[i] })
        }
    }
}

/// The plan with some character sets switched on or off.
pub open spec fn with_options(
    p: GeneratePlan,
    uppercase: Option<bool>,
    numbers: Option<bool>,
    symbols: Option<bool>,
) -> GeneratePlan {
    GeneratePlan {
        options: GeneratorOptions {
            use_uppercase: match uppercase {
                Some(b) => b,
                None => p.options.use_uppercase,
            },
            use_numbers: match numbers {
                Some(b) => b,
                None => p.options.use_numbers,
            },
            use_symbols: match symbols {
                Some(b) => b,
                None => p.options.use_symbols,
            },
            ..p.options
        },
        ..p
    }
}

/// Options that become the defaults have a length in range.
pub open spec fn ready_to_save(p: GeneratePlan) -> GeneratePlan {
    if p.save {
        GeneratePlan {
            options: GeneratorOptions {
                length: bounded(
                    p.options.length as int,
                    MIN_LENGTH as int,
                    MAX_LENGTH as int,
                ) as usize,
                ..p.options
            },
            ..p
        }
    } else {
        p
    }
}

fn number(args: &Vec<String>, i: usize) -> (r: Option<usize>)
    ensures
        r matches Some(n) ==> number_at(args@, i as int) == Some(n as nat),
        r is None ==> number_at(args@, i as int) is None,
{
    if i < args.len() {
        let v = chars_of(args[i].as_str());
        match parse_unsigned(v.as_slice(), usize::MAX as u64) {
            Some(n) => Some(n as usize),
            None => None,
        }
    } else {
        None
    }
}

/// Reads the arguments of the password generator, which change the given options. Only where
/// that is asked for do the options become the defaults.
pub fn parse_generate_args<'a>(args: &'a Vec<String>, start: usize, options: GeneratorOptions) -> (r:
    Result<GeneratePlan, GenerateError<'a>>)
    ensures
        match plan_from(args@, start as int, GeneratePlan { options, save: false, words: None }) {
            Ok(p) => r == Ok::<GeneratePlan, GenerateError<'a>>(ready_to_save(p)),
            Err(e) => r == Err::<GeneratePlan, GenerateError<'a>>(e),
        },
{
    let mut p = GeneratePlan { options, save: false, words: None };
    let ghost all = plan_from(args@, start as int, p);
    let mut i: usize = start;
    while i < args.len()
        invariant
            start <= i,
            all == plan_from(
                args@,
                start as int,
                GeneratePlan { options, save: false, words: None },
            ),
            all == plan_from(args@, i as int, p),
        decreases args@.len() - i,
    {
        let a = args[i].as_str();
        if same_text(a, "--save") {
            p.save = true;
            i += 1;
        } else if same_text(a, "--words") || same_text(a, "-w") {
            match number(args, i + 1) {
                Some(n) => {
                    p.words = Some(n);
                    i += 2;
                },
                None => {
                    p.words = Some(DEFAULT_WORDS);
                    i += 1;
                },
            }
        } else if same_text(a, "-l") || same_text(a, "--length") {
            if i + 1 < args.len() {
                match number(args, i + 1) {
                    Some(n) => {
                        p.options.length = n;
                        i += 2;
                    },
                    None => {
                        return Err(GenerateError::InvalidLength { value: &args[i + 1] });
                    },
                }
            } else {
                return Err(GenerateError::MissingLength);
            }
        } else if same_text(a, "--no-uppercase") {
            p.options.use_uppercase = false;
            i += 1;
        } else if same_text(a, "--no-numbers") {
            p.options.use_numbers = false;
            i += 1;
        } else if same_text(a, "--no-symbols") {
            p.options.use_symbols = false;
            i += 1;
        } else if same_text(a, "--uppercase") {
            p.options.use_uppercase = true;
            i += 1;
        } else if same_text(a, "--numbers") {
            p.options.use_numbers = true;
            i += 1;
        } else if same_text(a, "--symbols") {
            p.options.use_symbols = true;
            i += 1;
        } else {
            return Err(GenerateError::UnknownOption { option: &args[i] });
        }
    }
    if p.save {
        p.options.length = clamp(p.options.length, MIN_LENGTH, MAX_LENGTH);
    }
    Ok(p)
}

/// A password that is generated only once changes no default.
pub proof fn law_options_are_saved_only_on_request(args: Seq<String>, i: int, p: GeneratePlan)
    requires
        0 <= i,
        forall|k: int| i <= k < args.len() ==> (#[trigger] args[k])@ != "--save"@,
        !p.save,
    ensures
        plan_from(args, i, p) matches Ok(q) ==> !q.save,
    decreases args.len() - i,
{
    if i < args.len() {
        let a = args[i]@;
        if a == "--words"@ || a == "-w"@ {
            match number_at(args, i + 1) {
                Some(n) => law_options_are_saved_only_on_request(
                    args,
                    i + 2,
                    GeneratePlan { words: Some(n as usize), ..p },
                ),
                None => law_options_are_saved_only_on_request(
                    args,
                    i + 1,
                    GeneratePlan { words: Some(DEFAULT_WORDS), ..p },
                ),
            }
        } else if a == "-l"@ || a == "--length"@ {
            if i + 1 < args.len() && number_at(args, i + 1) is Some {
                law_options_are_saved_only_on_request(
                    args,
                    i + 2,
                    GeneratePlan {
                        options: GeneratorOptions {
                            length: number_at(args, i + 1)->0 as usize,
                            ..p.options
                        },
                        ..p
                    },
                );
            }
        } else if a == "--no-uppercase"@ {
            law_options_are_saved_only_on_request(
                args,
                i + 1,
                with_options(p, Some(false), None, None),
            );
        } else if a == "--no-numbers"@ {
            law_options_are_saved_only_on_request(
                args,
                i + 1,
                with_options(p, None, Some(false), None),
            );
        } else if a == "--no-symbols"@ {
            law_options_are_saved_only_on_request(
                args,
                i + 1,
                with_options(p, None, None, Some(false)),
            );
        } else if a == "--uppercase"@ {
            law_options_are_saved_only_on_request(
                args,
                i + 1,
                with_options(p, Some(true), None, None),
            );
        } else if a == "--numbers"@ {
            law_options_are_saved_only_on_request(
                args,
                i + 1,
                with_options(p, None, Some(true), None),
            );
        } else if a == "--symbols"@ {
            law_options_are_saved_only_on_request(
                args,
                i + 1,
                with_options(p, None, None, Some(true)),
            );
        }
    }
}

/// What the command line asks for.
#[derive(Debug)]
pub enum Command<'a> {
    Tui,
    Init,
    Add { title: &'a String, tags: &'a String, username: &'a String, url: Option<&'a String> },
    List { reveal: bool },
    /// A search; `None` is one without a query.
    Search { query: Option<&'a String>, reveal: bool },
    Delete { id: i64 },
    Import { path: &'a String },
    Export { path: &'a String },
    Reset,
    ChangePassword,
    Sync,
    SyncSetup,
    Audit { hibp: bool },
    Show { id: i64, reveal: bool },
    /// Copy a field; `None` is the password.
    Copy { id: i64, field: Option<&'a String> },
    Generate,
    Help,
    /// A command with too few arguments.
    Incomplete { command: &'a String },
    /// A command whose id is no number.
    InvalidId { text: &'a String },
    Unknown { command: &'a String },
}

/// Whether some argument is `--hibp`.
pub open spec fn asks_hibp(args: Seq<Seq<char>>) -> bool {
    place_of(args, "--hibp"@, 0) is Some
}

/// An argument, if it is there.
pub open spec fn arg_at(args: Seq<String>, i: int) -> Option<&'static String> {
    if 0 <= i < args.len() {
        Some(&args[i])
    } else {
        None
    }
}

/// The query of a search.
pub open spec fn query_of(rest: Seq<String>) -> Option<&'static String> {
    match query_place(texts(rest)) {
        Some(i) => Some(&rest[i]),
        None => None,
    }
}

/// What a command on one record asks for.
pub open spec fn on_record(args: Seq<String>, show: bool) -> Command<'static> {
    if args.len() < 3 {
        Command::Incomplete { command: &args[1] }
    } else {
        match signed_value(args[2]@) {
            None => Command::InvalidId { text: &args[2] },
            Some(id) => if show {
                Command::Show { id: id as i64, reveal: asks_reveal(texts(args)) }
            } else {
                Command::Copy { id: id as i64, field: arg_at(args, 3) }
            },
        }
    }
}

/// What the arguments ask for; the first one is the program itself.
pub open spec fn command_of(args: Seq<String>) -> Command<'static> {
    if args.len() < 2 {
        Command::Tui
    } else {
        let c = args[1]@;
        if c == "tui"@ {
            Command::Tui
        } else if c == "init"@ {
            Command::Init
        } else if c == "add"@ {
            if args.len() < 5 {
                Command::Incomplete { command: &args[1] }
            } else {
                Command::Add {
                    title: &args[2],
                    tags: &args[3],
                    username: &args[4],
                    url: arg_at(args, 5),
                }
            }
        } else if c == "list"@ {
            Command::List { reveal: asks_reveal(texts(args)) }
        } else if c == "search"@ {
            Command::Search {
                query: query_of(args.skip(2)),
                reveal: asks_reveal(before_dashes(texts(args.skip(2)))),
            }
        } else if c == "delete"@ {
            if args.len() < 3 {
                Command::Incomplete { command: &args[1] }
            } else {
                match signed_value(args[2]@) {
                    Some(id) => Command::Delete { id: id as i64 },
                    None => Command::InvalidId { text: &args[2] },
                }
            }
        } else if c == "import"@ {
            if args.len() < 3 {
                Command::Incomplete { command: &args[1] }
            } else {
                Command::Import { path: &args[2] }
            }
        } else if c == "export"@ {
            if args.len() < 3 {
                Command::Incomplete { command: &args[1] }
            } else {
                Command::Export { path: &args[2] }
            }
        } else if c == "reset"@ {
            Command::Reset
        } else if c == "change-password"@ {
            Command::ChangePassword
        } else if c == "sync"@ {
            if args.len() > 2 && args[2]@ == "setup"@ {
                Command::SyncSetup
            } else {
                Command::Sync
            }
        } else if c == "audit"@ {
            Command::Audit { hibp: asks_hibp(texts(args)) }
        } else if c == "show"@ || c == "view"@ {
            on_record(args, true)
        } else if c == "copy"@ {
            on_record(args, false)
        } else if c == "generate"@ || c == "gen"@ {
            Command::Generate
        } else if c == "help"@ || c == "-h"@ || c == "--help"@ {
            Command::Help
        } else {
            Command::Unknown { command: &args[1] }
        }
    }
}

fn arg<'a>(args: &'a Vec<String>, i: usize) -> (r: Option<&'a String>)
    ensures
        r == arg_at(args@, i as int),
{
    if i < args.len() {
        Some(&args[i])
    } else {
        None
    }
}

/// The arguments from the third on.
pub fn after_command(args: &Vec<String>) -> (rest: Vec<String>)
    requires
        args@.len() >= 2,
    ensures
        texts(rest@) == texts(args@.skip(2)),
        rest@.len() == args@.len() - 2,
{
    let mut rest: Vec<String> = Vec::new();
    let mut i: usize = 2;
    while i < args.len()
        invariant
            2 <= i <= args@.len(),
            rest@.len() == i - 2,
            forall|k: int| 0 <= k < rest@.len() ==> (#[trigger] rest@[k])@ == args@[k + 2]@,
        decreases args@.len() - i,
    {
        rest.push(args[i].clone());
        i += 1;
    }
    assert(texts(rest@) =~= texts(args@.skip(2)));
    rest
}

fn search_command<'a>(args: &'a Vec<String>) -> (c: Command<'a>)
    requires
        args@.len() >= 2,
    ensures
        c == (Command::Search {
            query: query_of(args@.skip(2)),
            reveal: asks_reveal(before_dashes(texts(args@.skip(2)))),
        }),
{
    let rest = after_command(args);
    let (place, reveal) = read_search(&rest);
    let total: usize = args.len();
    let query = match place {
        Some(i) => {
            assert(i + 2 < total);
            Some(&args[i + 2])
        },
        None => None,
    };
    proof {
        if place is Some {
            assert(args@.skip(2)[place->0 as int] == args@[place->0 + 2]);
        }
    }
    Command::Search { query, reveal }
}

/// Reads the command line; the first argument is the program itself.
pub fn parse_command<'a>(args: &'a Vec<String>) -> (c: Command<'a>)
    ensures
        c == command_of(args@),
{
    if args.len() < 2 {
        return Command::Tui;
    }
    let c = args[1].as_str();
    if same_text(c, "tui") {
        Command::Tui
    } else if same_text(c, "init") {
        Command::Init
    } else if same_text(c, "add") {
        if args.len() < 5 {
            Command::Incomplete { command: &args[1] }
        } else {
            Command::Add {
                title: &args[2],
                tags: &args[3],
                username: &args[4],
                url: arg(args, 5),
            }
        }
    } else if same_text(c, "list") {
        Command::List { reveal: wants_reveal(args) }
    } else if same_text(c, "search") {
        search_command(args)
    } else if same_text(c, "delete") {
        if args.len() < 3 {
            Command::Incomplete { command: &args[1] }
        } else {
            match parse_id(args[2].as_str()) {
                Some(id) => Command::Delete { id },
                None => Command::InvalidId { text: &args[2] },
            }
        }
    } else if same_text(c, "import") {
        if args.len() < 3 {
            Command::Incomplete { command: &args[1] }
        } else {
            Command::Import { path: &args[2] }
        }
    } else if same_text(c, "export") {
        if args.len() < 3 {
            Command::Incomplete { command: &args[1] }
        } else {
            Command::Export { path: &args[2] }
        }
    } else if same_text(c, "reset") {
        Command::Reset
    } else if same_text(c, "change-password") {
        Command::ChangePassword
    } else if same_text(c, "sync") {
        if args.len() > 2 && same_text(args[2].as_str(), "setup") {
            Command::SyncSetup
        } else {
            Command::Sync
        }
    } else if same_text(c, "audit") {
        Command::Audit { hibp: find_arg(args, "--hibp").is_some() }
    } else if same_text(c, "show") || same_text(c, "view") {
        if args.len() < 3 {
            Command::Incomplete { command: &args[1] }
        } else {
            match parse_id(args[2].as_str()) {
                Some(id) => Command::Show { id, reveal: wants_reveal(args) },
                None => Command::InvalidId { text: &args[2] },
            }
        }
    } else if same_text(c, "copy") {
        if args.len() < 3 {
            Command::Incomplete { command: &args[1] }
        } else {
            match parse_id(args[2].as_str()) {
                Some(id) => Command::Copy { id, field: arg(args, 3) },
                None => Command::InvalidId { text: &args[2] },
            }
        }
    } else if same_text(c, "generate") || same_text(c, "gen") {
        Command::Generate
    } else if same_text(c, "help") || same_text(c, "-h") || same_text(c, "--help") {
        Command::Help
    } else {
        Command::Unknown { command: &args[1] }
    }
}

/// What stands for a secret that is not to be seen.
pub open spec fn masked() -> Seq<char> {
    "••••••••"@
}

/// A secret as it is listed: masked, or in plain text, or a note that it does not open.
pub open spec fn listed_secret(data: Seq<u8>, key: Seq<u8>, reveal: bool) -> Seq<char> {
    if !reveal {
        masked()
    } else {
        match opened(data, key) {
            Ok(p) => text_of(p),
            Err(_) => "<Error>"@,
        }
    }
}

/// A secret as it is listed.
pub fn list_secret(data: &[u8], key: &[u8; 32], reveal: bool) -> (s: String)
    ensures
        s@ == listed_secret(data@, key@, reveal),
{
    if !reveal {
        "••••••••".to_owned()
    } else {
        match decrypt(data, key) {
            Ok(mut p) => {
                let s = lossy_text(p.as_slice());
                crate::crypto::wipe_bytes(&mut p);
                s
            },
            Err(_) => "<Error>".to_owned(),
        }
    }
}

/// Notes as they are listed.
pub fn list_notes(data: &Option<Vec<u8>>, key: &[u8; 32], reveal: bool) -> (s: String)
    ensures
        s@ == (match crate::db::records::blob(*data) {
            Some(d) => listed_secret(d, key@, reveal),
            None => "[No Notes]"@,
        }),
{
    match data {
        Some(d) => list_secret(d.as_slice(), key, reveal),
        None => "[No Notes]".to_owned(),
    }
}

/// What a field name asks to copy of a record: `Err` is no field name, `None` a password that
/// does not open.
pub open spec fn field_text(r: RecordView, field: Option<Seq<char>>, key: Seq<u8>) -> Result<
    Option<Seq<char>>,
    Seq<char>,
> {
    let f = match field {
        Some(f) => f,
        None => "password"@,
    };
    if f == "username"@ || f == "user"@ {
        Ok(Some(r.username))
    } else if f == "url"@ {
        Ok(Some(r.url))
    } else if f == "password"@ || f == "pass"@ {
        match opened(r.password, key) {
            Ok(p) => Ok(Some(text_of(p))),
            Err(_) => Ok(None),
        }
    } else {
        Err("Unknown copy target '"@ + f + "'. Choose from: username, password, url."@)
    }
}

/// What came of looking for the text to copy.
pub open spec fn copy_outcome(r: Result<Option<String>, String>) -> Result<
    Option<Seq<char>>,
    Seq<char>,
> {
    match r {
        Ok(t) => Ok(crate::db::records::text_opt(t)),
        Err(e) => Err(e@),
    }
}

/// An optional argument as text.
pub open spec fn ref_text(s: Option<&String>) -> Option<Seq<char>> {
    match s {
        Some(t) => Some(t@),
        None => None,
    }
}

/// The text that a field name asks to copy.
pub fn text_to_copy(r: &SecretRecord, field: Option<&String>, key: &[u8; 32]) -> (t: Result<
    Option<String>,
    String,
>)
    ensures
        copy_outcome(t) == field_text(r@, ref_text(field), key@),
{
    let f = match field {
        Some(f) => f.as_str(),
        None => "password",
    };
    if same_text(f, "username") || same_text(f, "user") {
        Ok(Some(r.username.clone()))
    } else if same_text(f, "url") {
        Ok(Some(r.url.clone()))
    } else if same_text(f, "password") || same_text(f, "pass") {
        match decrypt(r.encrypted_password.as_slice(), key) {
            Ok(mut p) => {
                let s = lossy_text(p.as_slice());
                crate::crypto::wipe_bytes(&mut p);
                Ok(Some(s))
            },
            Err(_) => Ok(None),
        }
    } else {
        let mut e = "Unknown copy target '".to_owned();
        e.append(f);
        e.append("'. Choose from: username, password, url.");
        Err(e)
    }
}

/// A name below a directory.
pub open spec fn below(dir: Seq<char>, name: Seq<char>) -> Seq<char> {
    if dir.len() == 0 || dir.last() == '/' {
        dir + name
    } else {
        dir + seq!['/'] + name
    }
}

/// A name below a directory.
pub fn join_path(dir: &str, name: &str) -> (s: String)
    ensures
        s@ == below(dir@, name@),
{
    let v = chars_of(dir);
    let mut s = dir.to_owned();
    if v.len() > 0 && v[v.len() - 1] != '/' {
        s.push('/');
        assert(s@ =~= dir@ + seq!['/']);
    }
    s.append(name);
    s
}

/// The directory of the vault: the one that is set for it, else `keystash` below the
/// configuration directory.
pub open spec fn vault_dir(
    own: Option<Seq<char>>,
    xdg: Option<Seq<char>>,
    home: Option<Seq<char>>,
) -> Seq<char> {
    match (own, xdg, home) {
        (Some(d), _, _) => d,
        (None, Some(x), _) => below(x, "keystash"@),
        (None, None, Some(h)) => below(below(h, ".config"@), "keystash"@),
        (None, None, None) => below("./.config"@, "keystash"@),
    }
}

/// The path of the vault, and whether the user is to be warned that it depends on the current
/// directory. The arguments are what the environment sets.
pub fn get_db_path(own: &Option<String>, xdg: &Option<String>, home: &Option<String>) -> (r: (
    String,
    bool,
))
    ensures
        r.0@ == below(
            vault_dir(
                crate::db::records::text_opt(*own),
                crate::db::records::text_opt(*xdg),
                crate::db::records::text_opt(*home),
            ),
            "vault.db"@,
        ),
        r.1 == (own is None && xdg is None && home is None),
{
    let dir = match (own, xdg, home) {
        (Some(d), _, _) => d.clone(),
        (None, Some(x), _) => join_path(x.as_str(), "keystash"),
        (None, None, Some(h)) => {
            let c = join_path(h.as_str(), ".config");
            join_path(c.as_str(), "keystash")
        },
        (None, None, None) => join_path("./.config", "keystash"),
    };
    (
        join_path(dir.as_str(), "vault.db"),
        own.is_none() && xdg.is_none() && home.is_none(),
    )
}

/// Texts with a separator between them.
pub open spec fn separated(v: Seq<Seq<char>>, sep: Seq<char>) -> Seq<char>
    decreases v.len(),
{
    if v.len() == 0 {
        Seq::empty()
    } else if v.len() == 1 {
        v[0]
    } else {
        separated(v.drop_last(), sep) + sep + v.last()
    }
}

/// Joins texts with a separator between them.
pub fn join_texts(v: &Vec<String>, sep: &str) -> (s: String)
    ensures
        s@ == separated(texts(v@), sep@),
{
    let ghost all = texts(v@);
    let mut s = String::new();
    let mut i: usize = 0;
    assert(all.take(0).len() == 0);
    while i < v.len()
        invariant
            i <= v@.len(),
            all == texts(v@),
            s@ == separated(all.take(i as int), sep@),
        decreases v@.len() - i,
    {
        assert(all.take(i + 1).drop_last() =~= all.take(i as int));
        assert(all.take(i + 1).last() == v@[i as int]@);
        if i > 0 {
            s.append(sep);
        }
        s.append(v[i].as_str());
        proof {
            if i == 0 {
                assert(s@ =~= v@[0]@);
                assert(all.take(1)[0] == v@[0]@);
            }
        }
        i += 1;
    }
    assert(all.take(i as int) =~= all);
    s
}

/// The issues of an audit entry as they are printed.
pub fn issue_column(issues: &Vec<String>) -> (s: String)
    ensures
        s@ == (if issues@.len() == 0 {
            "-"@
        } else {
            separated(texts(issues@), "; "@)
        }),
{
    if issues.len() == 0 {
        "-".to_owned()
    } else {
        join_texts(issues, "; ")
    }
}

/// The breach count of an audit entry as it is printed.
pub open spec fn breach_text(count: Option<u64>) -> Seq<char> {
    match count {
        Some(n) => if n == 0 {
            "  ✓ Clean"@
        } else {
            "  ✗ PWNED ("@ + decimal(n as nat) + "x)"@
        },
        None => "  ? Error"@,
    }
}

/// The breach count of an audit entry as it is printed.
pub fn breach_column(count: Option<u64>) -> (s: String)
    ensures
        s@ == breach_text(count),
{
    match count {
        Some(n) => if n == 0 {
            "  ✓ Clean".to_owned()
        } else {
            let mut s = "  ✗ PWNED (".to_owned();
            s.append(decimal_text(n).as_str());
            s.append("x)");
            s
        },
        None => "  ? Error".to_owned(),
    }
}

/// The strength column of an audit entry.
pub open spec fn strength_text(s: Severity) -> Seq<char> {
    match s {
        Severity::Critical => "[CRITICAL]"@,
        Severity::Weak => "[WEAK]    "@,
        Severity::Good => "[GOOD]    "@,
    }
}

/// The strength column of an audit entry.
pub fn strength_column(s: Severity) -> (t: &'static str)
    ensures
        t@ == strength_text(s),
{
    match s {
        Severity::Critical => "[CRITICAL]",
        Severity::Weak => "[WEAK]    ",
        Severity::Good => "[GOOD]    ",
    }
}

/// What keeps a pair of entries for a new master password from being taken, if anything does.
pub open spec fn new_password_error(pass: Seq<char>, confirm: Seq<char>) -> Option<Seq<char>> {
    if trimmed(pass).len() == 0 {
        Some("Password cannot be empty!"@)
    } else if pass != confirm {
        Some("Passwords do not match!"@)
    } else {
        None
    }
}

/// Checks a pair of entries for a new master password.
pub fn check_new_password(pass: &str, confirm: &str) -> (r: Result<(), String>)
    ensures
        (r is Ok) == (new_password_error(pass@, confirm@) is None),
        r matches Err(e) ==> new_password_error(pass@, confirm@) == Some(e@),
{
    if trim_text(pass).as_str().is_empty() {
        Err("Password cannot be empty!".to_owned())
    } else if !same_text(pass, confirm) {
        Err("Passwords do not match!".to_owned())
    } else {
        Ok(())
    }
}

/// A query after `--` is taken as it is, even if it looks like a flag: nothing from the `--` on
/// makes passwords be shown.
pub proof fn law_dashes_take_the_query_verbatim(args: Seq<Seq<char>>, i: int)
    requires
        0 <= i,
        i + 1 < args.len(),
        args[i] == "--"@,
        forall|k: int| 0 <= k < i ==> #[trigger] args[k] != "--"@,
    ensures
        query_place(args) == Some(i + 1),
        before_dashes(args) == args.take(i),
{
    lemma_place_is(args, "--"@, 0, i);
}

proof fn lemma_place_is(args: Seq<Seq<char>>, a: Seq<char>, from: int, i: int)
    requires
        0 <= from <= i < args.len(),
        args[i] == a,
        forall|k: int| 0 <= k < i ==> #[trigger] args[k] != a,
    ensures
        place_of(args, a, from) == Some(i),
    decreases i - from,
{
    if from < i {
        assert(args[from] != a);
        lemma_place_is(args, a, from + 1, i);
    }
}

} // verus!
