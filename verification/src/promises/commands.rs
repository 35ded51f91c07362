//! What the command line asks for.
use vstd::prelude::*;

use crate::cli::{
    breach_column, check_new_password, get_db_path, is_yes, issue_column,
    law_dashes_take_the_query_verbatim, number_at, parse_command, parse_generate_args, parse_id,
    parse_search_args, place_of, place_of_other, plan_from, query_place, strength_column,
    truncate_chars, wants_reveal, with_options, Command, GenerateError, GeneratePlan,
};
use crate::generator::GeneratorOptions;
use crate::strength::Severity;
use crate::text::{decimal, digits_value, lower, texts, trimmed, unsigned_value};

verus! {

/// Whether an argument asks to show secrets.
pub open spec fn flag(a: Seq<char>) -> bool {
    a == "--reveal"@ || a == "-r"@
}

proof fn lemma_place(args: Seq<Seq<char>>, a: Seq<char>, i: int)
    requires
        0 <= i <= args.len(),
    ensures
        place_of(args, a, i) matches Some(k) ==> i <= k < args.len() && args[k] == a && forall|j: int|
            i <= j < k ==> #[trigger] args[j] != a,
        place_of(args, a, i) is None ==> forall|j: int| i <= j < args.len() ==> #[trigger] args[j] != a,
    decreases args.len() - i,
{
    if i < args.len() && args[i] != a {
        lemma_place(args, a, i + 1);
    }
}

proof fn lemma_other(args: Seq<Seq<char>>, i: int)
    requires
        0 <= i <= args.len(),
    ensures
        place_of_other(args, i) matches Some(k) ==> i <= k < args.len() && !flag(args[k]) && forall|
            j: int,
        |
            i <= j < k ==> flag(#[trigger] args[j]),
        place_of_other(args, i) is None ==> forall|j: int|
            i <= j < args.len() ==> flag(#[trigger] args[j]),
    decreases args.len() - i,
{
    if i < args.len() && flag(args[i]) {
        lemma_other(args, i + 1);
    }
}

/// The query of a search is the first argument that is no flag, or whatever follows `--`; a flag
/// counts only before `--`.
pub proof fn law_search_arguments_are_read(
    rest: &Vec<String>,
    r: (Option<&String>, bool),
    k: int,
)
    requires
        call_ensures(parse_search_args, (rest,), r),
    ensures
        0 <= k < rest@.len() && !flag(rest@[k]@) && (forall|j: int|
            0 <= j < k ==> flag((#[trigger] rest@[j])@)) && (forall|j: int|
            0 <= j < rest@.len() ==> (#[trigger] rest@[j])@ != "--"@) ==> (r.0 matches Some(q) && q@
            == rest@[k]@),
        0 <= k && k + 1 < rest@.len() && rest@[k]@ == "--"@ && (forall|j: int|
            0 <= j < k ==> (#[trigger] rest@[j])@ != "--"@) ==> (r.0 matches Some(q) && q@ == rest@[k
            + 1]@),
        rest@.len() > 0 && k == rest@.len() - 1 && rest@[k]@ == "--"@ && (forall|j: int|
            0 <= j < k ==> (#[trigger] rest@[j])@ != "--"@) ==> r.0 is None,
        0 <= k < rest@.len() && rest@[k]@ == "--"@ && (forall|j: int|
            0 <= j < k ==> (#[trigger] rest@[j])@ != "--"@) ==> r.1 == exists|j: int|
            0 <= j < k && flag((#[trigger] rest@[j])@),
        (forall|j: int| 0 <= j < rest@.len() ==> flag((#[trigger] rest@[j])@)) ==> r.0 is None,
        (forall|j: int| 0 <= j < rest@.len() ==> (#[trigger] rest@[j])@ != "--"@) ==> r.1 == exists|
            j: int,
        |
            0 <= j < rest@.len() && flag((#[trigger] rest@[j])@),
{
    let t = texts(rest@);
    assert forall|j: int| 0 <= j < t.len() implies #[trigger] t[j] == rest@[j]@ by {}
    lemma_place(t, "--"@, 0);
    lemma_other(t, 0);
    reveal_strlit("--");
    reveal_strlit("--reveal");
    reveal_strlit("-r");
    assert("--"@.len() != "--reveal"@.len());
    assert("--"@[1] != "-r"@[1]);
    if 0 <= k < rest@.len() && rest@[k]@ == "--"@ && (forall|j: int|
        0 <= j < k ==> (#[trigger] rest@[j])@ != "--"@) {
        let p = place_of(t, "--"@, 0);
        assert(t[k] == "--"@);
        assert(p is Some);
        if p->0 < k {
            assert(rest@[p->0]@ != "--"@);
        }
        if k < p->0 {
            assert(t[k] != "--"@);
        }
        assert(p == Some(k));
        let b = t.take(k);
        if r.1 {
            let j = choose|j: int| 0 <= j < b.len() && crate::cli::is_reveal(#[trigger] b[j]);
            assert(b[j] == t[j]);
            assert(flag(rest@[j]@));
        }
        if exists|j: int| 0 <= j < k && flag((#[trigger] rest@[j])@) {
            let j = choose|j: int| 0 <= j < k && flag((#[trigger] rest@[j])@);
            assert(b[j] == t[j]);
            assert(crate::cli::is_reveal(b[j]));
        }
    }
    if 0 <= k && k + 1 < rest@.len() && rest@[k]@ == "--"@ && (forall|j: int|
        0 <= j < k ==> (#[trigger] rest@[j])@ != "--"@) {
        assert forall|j: int| 0 <= j < k implies #[trigger] t[j] != "--"@ by {
            assert(t[j] == rest@[j]@);
        }
        assert(t[k] == "--"@);
        law_dashes_take_the_query_verbatim(t, k);
    }
    if forall|j: int| 0 <= j < rest@.len() ==> (#[trigger] rest@[j])@ != "--"@ {
        if place_of(t, "--"@, 0) is Some {
            let i = place_of(t, "--"@, 0)->0;
            assert(t[i] == rest@[i]@);
        }
        if r.1 {
            let j = choose|j: int| 0 <= j < t.len() && crate::cli::is_reveal(#[trigger] t[j]);
            assert(flag(rest@[j]@));
        }
        if exists|j: int| 0 <= j < rest@.len() && flag((#[trigger] rest@[j])@) {
            let j = choose|j: int| 0 <= j < rest@.len() && flag((#[trigger] rest@[j])@);
            assert(crate::cli::is_reveal(t[j]));
        }
        if 0 <= k < rest@.len() && !flag(rest@[k]@) && (forall|j: int|
            0 <= j < k ==> flag((#[trigger] rest@[j])@)) {
            let p = place_of_other(t, 0);
            if p is None {
                assert(flag(t[k]));
            } else {
                let q = p->0;
                if q < k {
                    assert(flag(rest@[q]@));
                    assert(t[q] == rest@[q]@);
                }
                if k < q {
                    assert(flag(t[k]));
                }
                assert(q == k);
            }
        }
    }
    if forall|j: int| 0 <= j < rest@.len() ==> flag((#[trigger] rest@[j])@) {
        if place_of(t, "--"@, 0) is Some {
            let i = place_of(t, "--"@, 0)->0;
            assert(flag(rest@[i]@));
        }
        if place_of_other(t, 0) is Some {
            let i = place_of_other(t, 0)->0;
            assert(flag(rest@[i]@));
        }
    }
}

/// Secrets are shown on request only, wherever the request stands.
pub proof fn law_reveal_is_asked_for(args: &Vec<String>, b: bool)
    requires
        call_ensures(wants_reveal, (args,), b),
    ensures
        b <==> exists|j: int| 0 <= j < args@.len() && flag((#[trigger] args@[j])@),
{
    let t = texts(args@);
    if b {
        let j = choose|j: int| 0 <= j < t.len() && crate::cli::is_reveal(#[trigger] t[j]);
        assert(flag(args@[j]@));
    }
    if exists|j: int| 0 <= j < args@.len() && flag((#[trigger] args@[j])@) {
        let j = choose|j: int| 0 <= j < args@.len() && flag((#[trigger] args@[j])@);
        assert(crate::cli::is_reveal(t[j]));
    }
}

proof fn lemma_commands()
    ensures
        "tui"@.len() == 3,
        "init"@ == seq!['i', 'n', 'i', 't'],
        "add"@ == seq!['a', 'd', 'd'],
        "list"@ == seq!['l', 'i', 's', 't'],
        "search"@ == seq!['s', 'e', 'a', 'r', 'c', 'h'],
        "delete"@ == seq!['d', 'e', 'l', 'e', 't', 'e'],
        "import"@ == seq!['i', 'm', 'p', 'o', 'r', 't'],
        "export"@ == seq!['e', 'x', 'p', 'o', 'r', 't'],
        "reset"@ == seq!['r', 'e', 's', 'e', 't'],
        "change-password"@.len() == 15,
        "sync"@ == seq!['s', 'y', 'n', 'c'],
        "audit"@ == seq!['a', 'u', 'd', 'i', 't'],
        "show"@ == seq!['s', 'h', 'o', 'w'],
        "view"@ == seq!['v', 'i', 'e', 'w'],
        "copy"@ == seq!['c', 'o', 'p', 'y'],
        "generate"@.len() == 8,
        "gen"@ == seq!['g', 'e', 'n'],
        "help"@ == seq!['h', 'e', 'l', 'p'],
        "-h"@.len() == 2,
        "--help"@ == seq!['-', '-', 'h', 'e', 'l', 'p'],
        "tui"@[0] == 't',
{
    reveal_strlit("tui");
    reveal_strlit("init");
    reveal_strlit("add");
    reveal_strlit("list");
    reveal_strlit("search");
    reveal_strlit("delete");
    reveal_strlit("import");
    reveal_strlit("export");
    reveal_strlit("reset");
    reveal_strlit("change-password");
    reveal_strlit("sync");
    reveal_strlit("audit");
    reveal_strlit("show");
    reveal_strlit("view");
    reveal_strlit("copy");
    reveal_strlit("generate");
    reveal_strlit("gen");
    reveal_strlit("help");
    reveal_strlit("-h");
    reveal_strlit("--help");
    assert("init"@ =~= seq!['i', 'n', 'i', 't']);
    assert("add"@ =~= seq!['a', 'd', 'd']);
    assert("list"@ =~= seq!['l', 'i', 's', 't']);
    assert("search"@ =~= seq!['s', 'e', 'a', 'r', 'c', 'h']);
    assert("delete"@ =~= seq!['d', 'e', 'l', 'e', 't', 'e']);
    assert("import"@ =~= seq!['i', 'm', 'p', 'o', 'r', 't']);
    assert("export"@ =~= seq!['e', 'x', 'p', 'o', 'r', 't']);
    assert("reset"@ =~= seq!['r', 'e', 's', 'e', 't']);
    assert("sync"@ =~= seq!['s', 'y', 'n', 'c']);
    assert("audit"@ =~= seq!['a', 'u', 'd', 'i', 't']);
    assert("show"@ =~= seq!['s', 'h', 'o', 'w']);
    assert("view"@ =~= seq!['v', 'i', 'e', 'w']);
    assert("copy"@ =~= seq!['c', 'o', 'p', 'y']);
    assert("gen"@ =~= seq!['g', 'e', 'n']);
    assert("help"@ =~= seq!['h', 'e', 'l', 'p']);
    assert("--help"@ =~= seq!['-', '-', 'h', 'e', 'l', 'p']);
}

/// Each command is known by its name, and takes its arguments in their order.
pub proof fn law_commands_go_by_their_names<'a>(args: &'a Vec<String>, c: Command<'a>)
    requires
        call_ensures(parse_command, (args,), c),
    ensures
        args@.len() < 2 ==> c == Command::<'a>::Tui,
        args@.len() >= 2 ==> {
            let w = args@[1]@;
            &&& w == "tui"@ ==> c == Command::<'a>::Tui
            &&& w == "init"@ ==> c == Command::<'a>::Init
            &&& w == "add"@ && args@.len() >= 5 ==> (c matches Command::Add {
                title,
                tags,
                username,
                url,
            } && title@ == args@[2]@ && tags@ == args@[3]@ && username@ == args@[4]@ && (url is Some)
                == (args@.len() > 5) && (url matches Some(u) ==> u@ == args@[5]@))
            &&& w == "list"@ ==> (c matches Command::List { reveal } && reveal == exists|j: int|
                0 <= j < args@.len() && flag((#[trigger] args@[j])@))
            &&& w == "search"@ ==> c is Search
            &&& w == "delete"@ && args@.len() >= 3 ==> c is Delete || c is InvalidId
            &&& w == "import"@ && args@.len() >= 3 ==> (c matches Command::Import { path } && path@
                == args@[2]@)
            &&& w == "export"@ && args@.len() >= 3 ==> (c matches Command::Export { path } && path@
                == args@[2]@)
            &&& (w == "add"@ && args@.len() < 5) || ((w == "delete"@ || w == "import"@ || w == "export"@
                || w == "show"@ || w == "view"@ || w == "copy"@) && args@.len() < 3) ==> c is Incomplete
        },
{
    lemma_commands();
    let t = texts(args@);
    if crate::cli::asks_reveal(t) {
        let j = choose|j: int| 0 <= j < t.len() && crate::cli::is_reveal(#[trigger] t[j]);
        assert(flag(args@[j]@));
    }
    if exists|j: int| 0 <= j < args@.len() && flag((#[trigger] args@[j])@) {
        let j = choose|j: int| 0 <= j < args@.len() && flag((#[trigger] args@[j])@);
        assert(crate::cli::is_reveal(t[j]));
    }
}

/// A search is for what its arguments behind the command say.
pub proof fn law_search_command_reads_its_arguments<'a>(
    args: &'a Vec<String>,
    c: Command<'a>,
    rest: &Vec<String>,
    r: (Option<&String>, bool),
)
    requires
        call_ensures(parse_command, (args,), c),
        args@.len() >= 2,
        args@[1]@ == "search"@,
        texts(rest@) == texts(args@.skip(2)),
        call_ensures(parse_search_args, (rest,), r),
    ensures
        c matches Command::Search { query, reveal } && reveal == r.1 && (query is Some) == (r.0 is Some)
            && (query matches Some(q) ==> q@ == r.0->0@),
{
    lemma_commands();
    let t = texts(rest@);
    let a = args@.skip(2);
    lemma_place(t, "--"@, 0);
    lemma_other(t, 0);
    if query_place(t) is Some {
        let i = query_place(t)->0;
        assert(texts(a).len() == a.len());
        assert(texts(a)[i] == a[i]@);
        assert(t[i] == rest@[i]@);
    }
}

/// The rest of the commands.
pub proof fn law_other_commands_go_by_their_names<'a>(args: &'a Vec<String>, c: Command<'a>)
    requires
        call_ensures(parse_command, (args,), c),
        args@.len() >= 2,
    ensures
        ({
            let w = args@[1]@;
            &&& w == "reset"@ ==> c == Command::<'a>::Reset
            &&& w == "change-password"@ ==> c == Command::<'a>::ChangePassword
            &&& w == "sync"@ ==> c == (if args@.len() > 2 && args@[2]@ == "setup"@ {
                Command::<'a>::SyncSetup
            } else {
                Command::<'a>::Sync
            })
            &&& w == "audit"@ ==> (c matches Command::Audit { hibp } && hibp == exists|j: int|
                0 <= j < args@.len() && (#[trigger] args@[j])@ == "--hibp"@)
            &&& (w == "show"@ || w == "view"@) && args@.len() >= 3 ==> c is Show || c is InvalidId
            &&& w == "copy"@ && args@.len() >= 3 ==> c is Copy || c is InvalidId
            &&& c matches Command::Copy { id, field } ==> (field is Some) == (args@.len() > 3) && (
            field matches Some(f) ==> f@ == args@[3]@)
            &&& w == "generate"@ || w == "gen"@ ==> c == Command::<'a>::Generate
            &&& w == "help"@ || w == "-h"@ || w == "--help"@ ==> c == Command::<'a>::Help
        }),
{
    lemma_commands();
    reveal_strlit("change-password");
    reveal_strlit("generate");
    reveal_strlit("-h");
    reveal_strlit("tui");
    let t = texts(args@);
    lemma_place(t, "--hibp"@, 0);
    if args@[1]@ == "audit"@ {
        if place_of(t, "--hibp"@, 0) is Some {
            let j = place_of(t, "--hibp"@, 0)->0;
            assert(args@[j]@ == "--hibp"@);
        }
        if exists|j: int| 0 <= j < args@.len() && (#[trigger] args@[j])@ == "--hibp"@ {
            let j = choose|j: int| 0 <= j < args@.len() && (#[trigger] args@[j])@ == "--hibp"@;
            assert(t[j] == "--hibp"@);
        }
    }
}

/// The id of a command is the number that its second argument is, with or without a sign; what
/// is no number of 64 bits is none.
pub proof fn law_ids_are_numbers(text: &str, r: Option<i64>, body: Seq<char>)
    requires
        call_ensures(parse_id, (text,), r),
        body.len() > 0,
        body[0] != '+',
        body[0] != '-',
    ensures
        text@ == body ==> (r matches Some(n) ==> n >= 0 && digits_value(body) == Some(n as nat)) && (
        r is None ==> digits_value(body) is None || digits_value(body)->0 > i64::MAX),
        text@ == seq!['-'] + body ==> (r matches Some(n) ==> n <= 0 && digits_value(body) == Some(
            (-n) as nat,
        )) && (r is None ==> digits_value(body) is None || digits_value(body)->0 > i64::MAX + 1),
{
    if text@ == seq!['-'] + body {
        assert(text@.drop_first() =~= body);
        assert(text@[0] == '-');
    }
}

/// The id of a record that a command names is what its argument says.
pub proof fn law_commands_name_their_record<'a>(args: &'a Vec<String>, c: Command<'a>, text: &str, r: Option<i64>)
    requires
        call_ensures(parse_command, (args,), c),
        args@.len() >= 3,
        args@[1]@ == "delete"@ || args@[1]@ == "show"@ || args@[1]@ == "view"@ || args@[1]@ == "copy"@,
        text@ == args@[2]@,
        call_ensures(parse_id, (text,), r),
    ensures
        r is None ==> c is InvalidId,
        r matches Some(n) ==> match c {
            Command::Delete { id } => id == n && args@[1]@ == "delete"@,
            Command::Show { id, reveal } => id == n,
            Command::Copy { id, field } => id == n && args@[1]@ == "copy"@,
            _ => false,
        },
        c matches Command::Show { id, reveal } ==> reveal == exists|j: int|
            0 <= j < args@.len() && flag((#[trigger] args@[j])@),
{
    lemma_commands();
    let t = texts(args@);
    if c is Show {
        if crate::cli::asks_reveal(t) {
            let j = choose|j: int| 0 <= j < t.len() && crate::cli::is_reveal(#[trigger] t[j]);
            assert(flag(args@[j]@));
        }
        if exists|j: int| 0 <= j < args@.len() && flag((#[trigger] args@[j])@) {
            let j = choose|j: int| 0 <= j < args@.len() && flag((#[trigger] args@[j])@);
            assert(crate::cli::is_reveal(t[j]));
        }
    }
}

/// Without options a password is generated as usual, and nothing is saved.
pub proof fn law_no_options_change_nothing<'a>(
    args: &'a Vec<String>,
    start: usize,
    o: GeneratorOptions,
    r: Result<GeneratePlan, GenerateError<'a>>,
)
    requires
        call_ensures(parse_generate_args, (args, start, o), r),
        start >= args@.len(),
    ensures
        r is Ok,
        r->Ok_0.options == o,
        !r->Ok_0.save,
        r->Ok_0.words is None,
{
}

/// The options that switch a kind of character do that and nothing else.
pub proof fn law_switches_switch_their_kind<'a>(
    args: &'a Vec<String>,
    start: usize,
    o: GeneratorOptions,
    r: Result<GeneratePlan, GenerateError<'a>>,
)
    requires
        call_ensures(parse_generate_args, (args, start, o), r),
        start + 1 == args@.len(),
    ensures
        args@[start as int]@ == "--no-uppercase"@ ==> r is Ok && r->Ok_0.options == (GeneratorOptions {
            use_uppercase: false,
            ..o
        }),
        args@[start as int]@ == "--no-numbers"@ ==> r is Ok && r->Ok_0.options == (GeneratorOptions {
            use_numbers: false,
            ..o
        }),
        args@[start as int]@ == "--no-symbols"@ ==> r is Ok && r->Ok_0.options == (GeneratorOptions {
            use_symbols: false,
            ..o
        }),
        args@[start as int]@ == "--uppercase"@ ==> r is Ok && r->Ok_0.options == (GeneratorOptions {
            use_uppercase: true,
            ..o
        }),
        args@[start as int]@ == "--numbers"@ ==> r is Ok && r->Ok_0.options == (GeneratorOptions {
            use_numbers: true,
            ..o
        }),
        args@[start as int]@ == "--symbols"@ ==> r is Ok && r->Ok_0.options == (GeneratorOptions {
            use_symbols: true,
            ..o
        }),
        args@[start as int]@ == "--save"@ ==> r is Ok && r->Ok_0.save && r->Ok_0.options == (
        GeneratorOptions {
            length: if o.length < 4 {
                4
            } else if o.length > 256 {
                256
            } else {
                o.length
            },
            ..o
        }),
        args@[start as int]@ == "--words"@ || args@[start as int]@ == "-w"@ ==> r is Ok
            && r->Ok_0.words == Some(6usize) && r->Ok_0.options == o,
        args@[start as int]@ == "--length"@ || args@[start as int]@ == "-l"@ ==> r == Err::<
            GeneratePlan,
            GenerateError<'a>,
        >(GenerateError::MissingLength),
{
    lemma_options();
    let p = GeneratePlan { options: o, save: false, words: None };
    let i = start as int;
    assert(number_at(args@, i + 1) is None);
    assert(plan_from(args@, i + 1, GeneratePlan { save: true, ..p }) == Ok::<
        GeneratePlan,
        GenerateError<'static>,
    >(GeneratePlan { save: true, ..p }));
    assert(plan_from(args@, i + 1, GeneratePlan { words: Some(6usize), ..p }) == Ok::<
        GeneratePlan,
        GenerateError<'static>,
    >(GeneratePlan { words: Some(6usize), ..p }));
    let a = with_options(p, Some(false), None, None);
    let b = with_options(p, None, Some(false), None);
    let c = with_options(p, None, None, Some(false));
    let d = with_options(p, Some(true), None, None);
    let e = with_options(p, None, Some(true), None);
    let f = with_options(p, None, None, Some(true));
    assert(plan_from(args@, i + 1, a) == Ok::<GeneratePlan, GenerateError<'static>>(a));
    assert(plan_from(args@, i + 1, b) == Ok::<GeneratePlan, GenerateError<'static>>(b));
    assert(plan_from(args@, i + 1, c) == Ok::<GeneratePlan, GenerateError<'static>>(c));
    assert(plan_from(args@, i + 1, d) == Ok::<GeneratePlan, GenerateError<'static>>(d));
    assert(plan_from(args@, i + 1, e) == Ok::<GeneratePlan, GenerateError<'static>>(e));
    assert(plan_from(args@, i + 1, f) == Ok::<GeneratePlan, GenerateError<'static>>(f));
}

proof fn lemma_options()
    ensures
        "--save"@.len() == 6,
        "--words"@.len() == 7,
        "-w"@.len() == 2,
        "-l"@.len() == 2,
        "-l"@[1] == 'l',
        "-w"@[1] == 'w',
        "--length"@.len() == 8,
        "--no-uppercase"@.len() == 14,
        "--no-numbers"@.len() == 12,
        "--no-symbols"@.len() == 12,
        "--no-symbols"@[5] == 's',
        "--no-numbers"@[5] == 'n',
        "--uppercase"@.len() == 11,
        "--numbers"@.len() == 9,
        "--symbols"@.len() == 9,
        "--numbers"@[2] == 'n',
        "--symbols"@[2] == 's',
{
    reveal_strlit("--save");
    reveal_strlit("--words");
    reveal_strlit("-w");
    reveal_strlit("-l");
    reveal_strlit("--length");
    reveal_strlit("--no-uppercase");
    reveal_strlit("--no-numbers");
    reveal_strlit("--no-symbols");
    reveal_strlit("--uppercase");
    reveal_strlit("--numbers");
    reveal_strlit("--symbols");
}

/// A length or a number of words is the number that follows.
pub proof fn law_numbers_follow_their_option<'a>(
    args: &'a Vec<String>,
    start: usize,
    o: GeneratorOptions,
    r: Result<GeneratePlan, GenerateError<'a>>,
    n: nat,
)
    requires
        call_ensures(parse_generate_args, (args, start, o), r),
        start + 2 == args@.len(),
        unsigned_value(args@[start + 1]@, usize::MAX as nat) == Some(n),
    ensures
        args@[start as int]@ == "--length"@ || args@[start as int]@ == "-l"@ ==> r is Ok
            && r->Ok_0.options == (GeneratorOptions { length: n as usize, ..o }) && !r->Ok_0.save
            && r->Ok_0.words is None,
        args@[start as int]@ == "--words"@ || args@[start as int]@ == "-w"@ ==> r is Ok
            && r->Ok_0.words == Some(n as usize) && r->Ok_0.options == o && !r->Ok_0.save,
{
    lemma_options();
    let p = GeneratePlan { options: o, save: false, words: None };
    let i = start as int;
    let q = GeneratePlan { options: GeneratorOptions { length: n as usize, ..o }, ..p };
    let w = GeneratePlan { words: Some(n as usize), ..p };
    assert(plan_from(args@, i + 2, q) == Ok::<GeneratePlan, GenerateError<'static>>(q));
    assert(plan_from(args@, i + 2, w) == Ok::<GeneratePlan, GenerateError<'static>>(w));
}

/// What is no option, or no number where a length is due, is named and refused.
pub proof fn law_unknown_options_are_refused<'a>(
    args: &'a Vec<String>,
    start: usize,
    o: GeneratorOptions,
    r: Result<GeneratePlan, GenerateError<'a>>,
)
    requires
        call_ensures(parse_generate_args, (args, start, o), r),
        start < args@.len(),
    ensures
        ({
            let a = args@[start as int]@;
            &&& a != "--save"@ && a != "--words"@ && a != "-w"@ && a != "-l"@ && a != "--length"@ && a
                != "--no-uppercase"@ && a != "--no-numbers"@ && a != "--no-symbols"@ && a
                != "--uppercase"@ && a != "--numbers"@ && a != "--symbols"@ ==> (
            r matches Err(GenerateError::UnknownOption { option }) && option@ == a)
            &&& (a == "-l"@ || a == "--length"@) && start + 1 < args@.len() && unsigned_value(
                args@[start + 1]@,
                usize::MAX as nat,
            ) is None ==> (r matches Err(GenerateError::InvalidLength { value }) && value@ == args@[start
                + 1]@)
        }),
{
    lemma_options();
}

/// What the options come to is generated with, and saved on request, with a length in range.
pub proof fn law_plan_is_what_the_options_come_to<'a>(
    args: &'a Vec<String>,
    start: usize,
    o: GeneratorOptions,
    r: Result<GeneratePlan, GenerateError<'a>>,
    p: GeneratePlan,
)
    requires
        call_ensures(parse_generate_args, (args, start, o), r),
        plan_from(args@, start as int, GeneratePlan { options: o, save: false, words: None }) == Ok::<
            GeneratePlan,
            GenerateError<'static>,
        >(p),
    ensures
        r is Ok,
        r->Ok_0.save == p.save,
        r->Ok_0.words == p.words,
        !p.save || 4 <= p.options.length <= 256 ==> r->Ok_0.options == p.options,
        p.save && p.options.length > 256 ==> r->Ok_0.options == (GeneratorOptions {
            length: 256,
            ..p.options
        }),
        p.save && p.options.length < 4 ==> r->Ok_0.options == (GeneratorOptions {
            length: 4,
            ..p.options
        }),
{
}

/// Options add up: one that switches a kind of character does so whatever stands behind it, up to
/// an option that switches it again.
pub proof fn law_options_add_up(args: Seq<String>, i: int, p: GeneratePlan)
    requires
        0 <= i < args.len(),
    ensures
        args[i]@ == "--no-symbols"@ ==> plan_from(args, i, p) == plan_from(
            args,
            i + 1,
            GeneratePlan { options: GeneratorOptions { use_symbols: false, ..p.options }, ..p },
        ),
        args[i]@ == "--no-numbers"@ ==> plan_from(args, i, p) == plan_from(
            args,
            i + 1,
            GeneratePlan { options: GeneratorOptions { use_numbers: false, ..p.options }, ..p },
        ),
        args[i]@ == "--no-uppercase"@ ==> plan_from(args, i, p) == plan_from(
            args,
            i + 1,
            GeneratePlan { options: GeneratorOptions { use_uppercase: false, ..p.options }, ..p },
        ),
        args[i]@ == "--save"@ ==> plan_from(args, i, p) == plan_from(
            args,
            i + 1,
            GeneratePlan { save: true, ..p },
        ),
        args[i]@ == "--symbols"@ ==> plan_from(args, i, p) == plan_from(
            args,
            i + 1,
            GeneratePlan { options: GeneratorOptions { use_symbols: true, ..p.options }, ..p },
        ),
        args[i]@ == "--numbers"@ ==> plan_from(args, i, p) == plan_from(
            args,
            i + 1,
            GeneratePlan { options: GeneratorOptions { use_numbers: true, ..p.options }, ..p },
        ),
        args[i]@ == "--uppercase"@ ==> plan_from(args, i, p) == plan_from(
            args,
            i + 1,
            GeneratePlan { options: GeneratorOptions { use_uppercase: true, ..p.options }, ..p },
        ),
        (args[i]@ == "-l"@ || args[i]@ == "--length"@) && i + 1 < args.len() && (unsigned_value(
            args[i + 1]@,
            usize::MAX as nat,
        ) is Some) ==> plan_from(args, i, p) == plan_from(
            args,
            i + 2,
            GeneratePlan {
                options: GeneratorOptions {
                    length: unsigned_value(args[i + 1]@, usize::MAX as nat)->0 as usize,
                    ..p.options
                },
                ..p
            },
        ),
        (args[i]@ == "-w"@ || args[i]@ == "--words"@) && i + 1 < args.len() && (unsigned_value(
            args[i + 1]@,
            usize::MAX as nat,
        ) is Some) ==> plan_from(args, i, p) == plan_from(
            args,
            i + 2,
            GeneratePlan {
                words: Some(unsigned_value(args[i + 1]@, usize::MAX as nat)->0 as usize),
                ..p
            },
        ),
        (args[i]@ == "-w"@ || args[i]@ == "--words"@) && (i + 1 >= args.len() || unsigned_value(
            args[i + 1]@,
            usize::MAX as nat,
        ) is None) ==> plan_from(args, i, p) == plan_from(
            args,
            i + 1,
            GeneratePlan { words: Some(6usize), ..p },
        ),
{
    lemma_options();
}

/// The vault lies in the program's own directory where one is named, else below the user's
/// directory for settings, else below `.config` in the home directory.
pub proof fn law_vault_lies_where_it_was_asked(
    own: &Option<String>,
    xdg: &Option<String>,
    home: &Option<String>,
    r: (String, bool),
)
    requires
        call_ensures(get_db_path, (own, xdg, home), r),
    ensures
        own matches Some(d) ==> (d@.len() > 0 && d@.last() != '/' ==> r.0@ == d@ + "/vault.db"@),
        *own is None && *xdg is Some && ((*xdg)->0@.len() > 0 && (*xdg)->0@.last() != '/') ==> r.0@
            == (*xdg)->0@ + "/keystash/vault.db"@,
        *own is None && *xdg is None && *home is Some && ((*home)->0@.len() > 0 && (*home)->0@.last()
            != '/') ==> r.0@ == (*home)->0@ + "/.config/keystash/vault.db"@,
        *own is None && *xdg is None && *home is None ==> r.0@ == "./.config/keystash/vault.db"@,
        r.1 <==> *own is None && *xdg is None && *home is None,
{
    reveal_strlit("/vault.db");
    reveal_strlit("vault.db");
    reveal_strlit("keystash");
    reveal_strlit("/keystash/vault.db");
    reveal_strlit(".config");
    reveal_strlit("./.config");
    reveal_strlit("/.config/keystash/vault.db");
    reveal_strlit("./.config/keystash/vault.db");
    if *own is Some {
        let d = (*own)->0@;
        assert(d.len() > 0 && d.last() != '/' ==> d + seq!['/'] + "vault.db"@ =~= d + "/vault.db"@);
    } else if *xdg is Some {
        let d = (*xdg)->0@;
        if d.len() > 0 && d.last() != '/' {
            let k = d + seq!['/'] + "keystash"@;
            assert(k.last() == 'h');
            assert(k + seq!['/'] + "vault.db"@ =~= d + "/keystash/vault.db"@);
        }
    } else if *home is Some {
        let d = (*home)->0@;
        if d.len() > 0 && d.last() != '/' {
            let c = d + seq!['/'] + ".config"@;
            assert(c.last() == 'g');
            let k = c + seq!['/'] + "keystash"@;
            assert(k.last() == 'h');
            assert(k + seq!['/'] + "vault.db"@ =~= d + "/.config/keystash/vault.db"@);
        }
    } else {
        let c = "./.config"@;
        assert(c.last() == 'g');
        let k = c + seq!['/'] + "keystash"@;
        assert(k.last() == 'h');
        assert(k + seq!['/'] + "vault.db"@ =~= "./.config/keystash/vault.db"@);
    }
}

/// A new password is taken exactly where it is more than white space and was typed twice the
/// same.
pub proof fn law_new_passwords_are_confirmed(pass: &str, confirm: &str, r: Result<(), String>)
    requires
        call_ensures(check_new_password, (pass, confirm), r),
    ensures
        r is Ok <==> trimmed(pass@).len() > 0 && pass@ == confirm@,
        trimmed(pass@).len() == 0 ==> (r matches Err(e) && e@ == "Password cannot be empty!"@),
        trimmed(pass@).len() > 0 && pass@ != confirm@ ==> (r matches Err(e) && e@
            == "Passwords do not match!"@),
{
}

/// Only a `y`, in either case, is a yes.
pub proof fn law_only_y_is_yes(answer: &str, b: bool)
    requires
        call_ensures(is_yes, (answer,), b),
    ensures
        b <==> lower(trimmed(answer@)) == "y"@,
{
}

/// What is too long for its column is cut, and nothing else is.
pub proof fn law_columns_are_cut_to_width(s: &str, n: usize, r: String)
    requires
        call_ensures(truncate_chars, (s, n), r),
    ensures
        s@.len() <= n ==> r@ == s@,
        s@.len() > n ==> r@.len() == n && r@ == s@.subrange(0, n as int),
{
    if s@.len() > n {
        assert(s@.take(n as int) =~= s@.subrange(0, n as int));
    }
}

/// What the columns of an audit say.
pub proof fn law_audit_columns_say_what_was_found(
    sev: Severity,
    t: &'static str,
    count: Option<u64>,
    b: String,
    issues: &Vec<String>,
    i: String,
)
    requires
        call_ensures(strength_column, (sev,), t),
        call_ensures(breach_column, (count,), b),
        call_ensures(issue_column, (issues,), i),
    ensures
        sev == Severity::Critical ==> t@ == "[CRITICAL]"@,
        sev == Severity::Weak ==> t@ == "[WEAK]    "@,
        sev == Severity::Good ==> t@ == "[GOOD]    "@,
        count == Some(0u64) ==> b@ == "  ✓ Clean"@,
        count matches Some(n) ==> (n > 0 ==> b@ == "  ✗ PWNED ("@ + decimal(n as nat) + "x)"@),
        count is None ==> b@ == "  ? Error"@,
        issues@.len() == 0 ==> i@ == "-"@,
        issues@.len() == 1 ==> i@ == issues@[0]@,
{
    if issues@.len() == 1 {
        assert(texts(issues@)[0] == issues@[0]@);
    }
}

} // verus!
