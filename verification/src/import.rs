//! Taking credentials over from other password managers, and writing them out.
use vstd::prelude::*;
use vstd::string::*;
use vstd::utf8::encode_utf8;

use crate::conflicts::{plain, reveal_notes, reveal_text, shown, shown_opt, PlainView};
use crate::crypto::{error_of, lossy_text, text_of, wipe_text};
use crate::csv_format::{
    csv_text, guard_cell, guarded, headed, looks_like_formula, read_csv_records, reads_back,
    row_text, table_of, tables, wipe_row, write_row,
};
use crate::db::identity::{is_uuid_v4, new_uuids};
use crate::db::records::{has_uuid, records, unused, RecordView, SecretRecord, Vault, VaultView};
use crate::db::store::{add_secret_with, by_title, get_secrets, holds, storable};
use crate::text::{
    chars_of, find_char, first_at, has_prefix, lower, lower_text, matches_at, occurs, occurs_in, part,
    same_text, skip_white, string_of, texts, trim_start, trim_text, trimmed,
};

verus! {

/// The formats that credentials are taken over from.
#[derive(Debug, Clone, Copy, PartialEq, Eq, Structural)]
pub enum ImportFormat {
    BitwardenJson,
    BraveChromeCsv,
    FirefoxCsv,
    LastPassCsv,
    KeePassXcCsv,
    OnePasswordCsv,
    KeyStashCsv,
}

/// The name of a format.
pub open spec fn format_name(f: ImportFormat) -> Seq<char> {
    match f {
        ImportFormat::BitwardenJson => "Bitwarden (JSON)"@,
        ImportFormat::BraveChromeCsv => "Brave / Chrome (CSV)"@,
        ImportFormat::FirefoxCsv => "Firefox (CSV)"@,
        ImportFormat::LastPassCsv => "LastPass (CSV)"@,
        ImportFormat::KeePassXcCsv => "KeePassXC (CSV)"@,
        ImportFormat::OnePasswordCsv => "1Password (CSV)"@,
        ImportFormat::KeyStashCsv => "KeyStash (CSV)"@,
    }
}

impl ImportFormat {
    /// The name of the format.
    pub fn name(&self) -> (s: &'static str)
        ensures
            s@ == format_name(*self),
    {
        match self {
            ImportFormat::BitwardenJson => "Bitwarden (JSON)",
            ImportFormat::BraveChromeCsv => "Brave / Chrome (CSV)",
            ImportFormat::FirefoxCsv => "Firefox (CSV)",
            ImportFormat::LastPassCsv => "LastPass (CSV)",
            ImportFormat::KeePassXcCsv => "KeePassXC (CSV)",
            ImportFormat::OnePasswordCsv => "1Password (CSV)",
            ImportFormat::KeyStashCsv => "KeyStash (CSV)",
        }
    }
}

/// A text without all leading copies of a prefix.
pub open spec fn stripped(s: Seq<char>, p: Seq<char>) -> Seq<char>
    decreases s.len(),
{
    if p.len() > 0 && has_prefix(s, p) {
        stripped(s.skip(p.len() as int), p)
    } else {
        s
    }
}

/// The host that an address names.
pub open spec fn domain_of(url: Seq<char>) -> Seq<char> {
    if url.len() == 0 {
        "Browser Login"@
    } else {
        let d = stripped(stripped(stripped(url, "https://"@), "http://"@), "www."@);
        d.take(first_at(d, '/'))
    }
}

fn strip(v: Vec<char>, p: &str) -> (r: Vec<char>)
    ensures
        r@ == stripped(v@, p@),
{
    let prefix = chars_of(p);
    let ghost start = v@;
    let mut rest = v;
    if prefix.len() == 0 {
        return rest;
    }
    loop
        invariant
            prefix@ == p@,
            prefix@.len() > 0,
            stripped(start, p@) == stripped(rest@, p@),
        ensures
            rest@ == stripped(start, p@),
        decreases rest@.len(),
    {
        assert(rest@.skip(0) =~= rest@);
        if !matches_at(rest.as_slice(), 0, prefix.as_slice()) {
            break;
        }
        let shorter = part(rest.as_slice(), prefix.len(), rest.len());
        assert(shorter@ =~= rest@.skip(prefix@.len() as int));
        rest = shorter;
    }
    rest
}

/// The host that an address names.
pub fn extract_domain(url: &str) -> (s: String)
    ensures
        s@ == domain_of(url@),
{
    if url.is_empty() {
        return "Browser Login".to_owned();
    }
    let v = strip(strip(strip(chars_of(url), "https://"), "http://"), "www.");
    let k: usize = find_char(v.as_slice(), '/');
    let host = part(v.as_slice(), 0, k);
    assert(host@ =~= v@.take(k as int));
    string_of(host.as_slice())
}

/// A column heading as it is compared.
pub open spec fn heading(h: Seq<char>) -> Seq<char> {
    lower(trimmed(h))
}

/// The column with the given heading: the first one, if there is any.
pub open spec fn column(headers: Seq<Seq<char>>, name: Seq<char>) -> Option<int>
    decreases headers.len(),
{
    if headers.len() == 0 {
        None
    } else if heading(headers[0]) == name {
        Some(0)
    } else {
        match column(headers.drop_first(), name) {
            Some(i) => Some(i + 1),
            None => None,
        }
    }
}

/// The column with the given heading.
pub fn find_column(headers: &Vec<String>, name: &str) -> (r: Option<usize>)
    ensures
        r matches Some(i) ==> column(texts(headers@), name@) == Some(i as int) && i < headers@.len(),
        r is None ==> column(texts(headers@), name@) is None,
{
    let ghost all = texts(headers@);
    let mut i: usize = 0;
    assert(all.skip(0) =~= all);
    while i < headers.len()
        invariant
            i <= headers@.len(),
            all == texts(headers@),
            column(all, name@) == (match column(all.skip(i as int), name@) {
                Some(k) => Some(k + i),
                None => None,
            }),
        decreases headers@.len() - i,
    {
        assert(all.skip(i as int)[0] == headers@[i as int]@);
        let h = lower_text(trim_text(headers[i].as_str()).as_str());
        if same_text(h.as_str(), name) {
            return Some(i);
        }
        assert(all.skip(i as int).drop_first() =~= all.skip(i + 1));
        i += 1;
    }
    None
}

/// Whether there is a column with the given heading.
pub open spec fn has_column(headers: Seq<Seq<char>>, name: Seq<char>) -> bool {
    column(headers, name) is Some
}

/// The format that column headings show; more specific sets of headings come first, as they
/// contain the more general ones.
pub open spec fn csv_format(h: Seq<Seq<char>>) -> Option<ImportFormat> {
    if h.len() == 6 && has_column(h, "title"@) && has_column(h, "url"@) && has_column(h, "username"@)
        && has_column(h, "password"@) && has_column(h, "notes"@) && has_column(h, "category"@) {
        Some(ImportFormat::KeyStashCsv)
    } else if has_column(h, "url"@) && has_column(h, "username"@) && has_column(h, "password"@)
        && has_column(h, "extra"@) && has_column(h, "fav"@) {
        Some(ImportFormat::LastPassCsv)
    } else if has_column(h, "url"@) && has_column(h, "username"@) && has_column(h, "password"@)
        && has_column(h, "httprealm"@) {
        Some(ImportFormat::FirefoxCsv)
    } else if has_column(h, "group"@) && has_column(h, "title"@) && has_column(h, "username"@)
        && has_column(h, "password"@) && has_column(h, "notes"@) {
        Some(ImportFormat::KeePassXcCsv)
    } else if has_column(h, "name"@) && has_column(h, "url"@) && has_column(h, "username"@)
        && has_column(h, "password"@) {
        Some(ImportFormat::BraveChromeCsv)
    } else if has_column(h, "title"@) && has_column(h, "username"@) && has_column(h, "password"@)
        && (has_column(h, "website"@) || has_column(h, "url"@)) && !has_column(h, "group"@) {
        Some(ImportFormat::OnePasswordCsv)
    } else {
        None
    }
}

fn has_heading(headers: &Vec<String>, name: &str) -> (b: bool)
    ensures
        b == has_column(texts(headers@), name@),
{
    find_column(headers, name).is_some()
}

/// The format that column headings show.
pub fn detect_csv_format(h: &Vec<String>) -> (r: Option<ImportFormat>)
    ensures
        r == csv_format(texts(h@)),
{
    assert(texts(h@).len() == h@.len());
    let title = has_heading(h, "title");
    let url = has_heading(h, "url");
    let username = has_heading(h, "username");
    let password = has_heading(h, "password");
    let notes = has_heading(h, "notes");
    let group = has_heading(h, "group");
    if h.len() == 6 && title && url && username && password && notes && has_heading(h, "category") {
        Some(ImportFormat::KeyStashCsv)
    } else if url && username && password && has_heading(h, "extra") && has_heading(h, "fav") {
        Some(ImportFormat::LastPassCsv)
    } else if url && username && password && has_heading(h, "httprealm") {
        Some(ImportFormat::FirefoxCsv)
    } else if group && title && username && password && notes {
        Some(ImportFormat::KeePassXcCsv)
    } else if has_heading(h, "name") && url && username && password {
        Some(ImportFormat::BraveChromeCsv)
    } else if title && username && password && (has_heading(h, "website") || url) && !group {
        Some(ImportFormat::OnePasswordCsv)
    } else {
        None
    }
}

/// What the beginning of a file and its column headings show. A file that begins with a brace
/// is JSON; `headers` is `None` where the file cannot be read as a table.
pub open spec fn format_of(head: Seq<char>, headers: Option<Seq<Seq<char>>>) -> Result<
    ImportFormat,
    Seq<char>,
> {
    let t = trim_start(head);
    if t.len() > 0 && t[0] == '{' {
        if occurs(head, "\"folders\""@) || occurs(head, "\"items\""@) {
            Ok(ImportFormat::BitwardenJson)
        } else {
            Err("Unsupported JSON export format."@)
        }
    } else {
        match headers {
            None => Err("Unknown or unsupported export file format."@),
            Some(h) => match csv_format(h) {
                Some(f) => Ok(f),
                None => Err("Unknown or unsupported export file format."@),
            },
        }
    }
}

/// What came of detecting a format.
pub open spec fn format_outcome(r: Result<ImportFormat, String>) -> Result<ImportFormat, Seq<char>> {
    match r {
        Ok(f) => Ok(f),
        Err(e) => Err(e@),
    }
}

/// Tells the format from the beginning of a file and its column headings.
pub fn classify(head: &str, headers: &Option<Vec<String>>) -> (r: Result<ImportFormat, String>)
    ensures
        format_outcome(r) == format_of(head@, crate::sync::texts_opt(*headers)),
{
    let v = chars_of(head);
    let i: usize = skip_white(v.as_slice());
    if i < v.len() && v[i] == '{' {
        assert(trim_start(head@)[0] == '{');
        let folders = chars_of("\"folders\"");
        let items = chars_of("\"items\"");
        if occurs_in(v.as_slice(), folders.as_slice()) || occurs_in(v.as_slice(), items.as_slice()) {
            return Ok(ImportFormat::BitwardenJson);
        }
        return Err("Unsupported JSON export format.".to_owned());
    }
    match headers {
        None => Err("Unknown or unsupported export file format.".to_owned()),
        Some(h) => match detect_csv_format(h) {
            Some(f) => Ok(f),
            None => Err("Unknown or unsupported export file format.".to_owned()),
        },
    }
}

/// The beginning of a file that its format is told from.
pub open spec fn head_of(data: Seq<u8>) -> Seq<u8> {
    if data.len() <= 1024 {
        data
    } else {
        data.take(1024)
    }
}

/// The column headings of a file, if it can be read as a table.
pub open spec fn headers_of(data: Seq<u8>) -> Option<Seq<Seq<char>>> {
    match table_of(data) {
        Ok(t) => Some(t.0),
        Err(_) => None,
    }
}

/// Tells the format of an export file from its contents.
pub fn detect_format(data: &[u8]) -> (r: Result<ImportFormat, String>)
    ensures
        format_outcome(r) == format_of(text_of(head_of(data@)), headers_of(data@)),
{
    let head = if data.len() <= 1024 {
        lossy_text(data)
    } else {
        let (first, _rest) = data.split_at(1024);
        assert(first@ =~= data@.take(1024));
        lossy_text(first)
    };
    let headers = match read_csv_records(data) {
        Ok(p) => Some(p.0),
        Err(_) => None,
    };
    classify(head.as_str(), &headers)
}

/// A credential to be added.
#[derive(Debug)]
pub struct Draft {
    pub title: String,
    pub category: String,
    pub username: String,
    pub url: String,
    pub password: String,
    pub notes: Option<String>,
}

/// What a credential to be added holds.
pub struct DraftView {
    pub title: Seq<char>,
    pub category: Seq<char>,
    pub username: Seq<char>,
    pub url: Seq<char>,
    pub password: Seq<char>,
    pub notes: Option<Seq<char>>,
}

impl View for Draft {
    type V = DraftView;

    open spec fn view(&self) -> DraftView {
        DraftView {
            title: self.title@,
            category: self.category@,
            username: self.username@,
            url: self.url@,
            password: self.password@,
            notes: crate::db::records::text_opt(self.notes),
        }
    }
}

/// The views of a list of drafts.
pub open spec fn drafts(v: Seq<Draft>) -> Seq<DraftView> {
    Seq::new(v.len(), |i: int| v[i]@)
}

/// Which column of a table holds what.
#[derive(Debug, Clone, Copy, PartialEq, Eq, Structural)]
pub struct Columns {
    /// `None` where the title is the host of the address.
    pub title: Option<usize>,
    pub url: usize,
    pub username: usize,
    pub password: usize,
    pub notes: Option<usize>,
    pub category: Option<usize>,
}

/// The headings that a format needs, in the order in which they are looked for.
pub open spec fn wanted(f: ImportFormat) -> Seq<Seq<char>> {
    match f {
        ImportFormat::BitwardenJson => Seq::empty(),
        ImportFormat::BraveChromeCsv => seq!["name"@, "url"@, "username"@, "password"@],
        ImportFormat::FirefoxCsv => seq!["url"@, "username"@, "password"@],
        ImportFormat::LastPassCsv => seq![
            "name"@,
            "url"@,
            "username"@,
            "password"@,
            "extra"@,
            "grouping"@,
        ],
        ImportFormat::KeePassXcCsv => seq![
            "group"@,
            "title"@,
            "username"@,
            "password"@,
            "url"@,
            "notes"@,
        ],
        ImportFormat::OnePasswordCsv => seq!["title"@, "username"@, "password"@],
        ImportFormat::KeyStashCsv => seq![
            "title"@,
            "url"@,
            "username"@,
            "password"@,
            "notes"@,
            "category"@,
        ],
    }
}

/// What is said where a heading is missing.
pub open spec fn missing_text(name: Seq<char>) -> Seq<char> {
    if name == "extra"@ {
        "Missing 'extra' (notes) column"@
    } else {
        "Missing '"@ + name + "' column"@
    }
}

/// The first of the names that is no heading.
pub open spec fn first_missing(names: Seq<Seq<char>>, headers: Seq<Seq<char>>) -> Option<Seq<char>>
    decreases names.len(),
{
    if names.len() == 0 {
        None
    } else if has_column(headers, names[0]) {
        first_missing(names.drop_first(), headers)
    } else {
        Some(names[0])
    }
}

/// The column of an address in a 1Password export.
pub open spec fn website(headers: Seq<Seq<char>>) -> Option<int> {
    if has_column(headers, "url"@) {
        column(headers, "url"@)
    } else {
        column(headers, "website"@)
    }
}

/// What keeps a table from being read in a format, if anything does.
pub open spec fn columns_error(f: ImportFormat, headers: Seq<Seq<char>>) -> Option<Seq<char>> {
    match first_missing(wanted(f), headers) {
        Some(name) => Some(missing_text(name)),
        None => if f == ImportFormat::OnePasswordCsv && website(headers) is None {
            Some("Missing URL / Website column"@)
        } else {
            None
        },
    }
}

/// The heading of the title column; none where the title is the host of the address.
pub open spec fn title_heading(f: ImportFormat) -> Option<Seq<char>> {
    match f {
        ImportFormat::BraveChromeCsv => Some("name"@),
        ImportFormat::LastPassCsv => Some("name"@),
        ImportFormat::KeePassXcCsv => Some("title"@),
        ImportFormat::OnePasswordCsv => Some("title"@),
        ImportFormat::KeyStashCsv => Some("title"@),
        _ => None,
    }
}

/// The heading of the notes column.
pub open spec fn notes_heading(f: ImportFormat) -> Option<Seq<char>> {
    match f {
        ImportFormat::LastPassCsv => Some("extra"@),
        ImportFormat::KeePassXcCsv => Some("notes"@),
        ImportFormat::OnePasswordCsv => Some("notes"@),
        ImportFormat::KeyStashCsv => Some("notes"@),
        _ => None,
    }
}

/// The heading of the category column.
pub open spec fn category_heading(f: ImportFormat) -> Option<Seq<char>> {
    match f {
        ImportFormat::LastPassCsv => Some("grouping"@),
        ImportFormat::KeePassXcCsv => Some("group"@),
        ImportFormat::KeyStashCsv => Some("category"@),
        _ => None,
    }
}

/// The category of a credential without one.
pub open spec fn fallback_category(f: ImportFormat) -> Seq<char> {
    match f {
        ImportFormat::BraveChromeCsv => "Browser"@,
        ImportFormat::FirefoxCsv => "Browser"@,
        ImportFormat::LastPassCsv => "LastPass"@,
        ImportFormat::KeePassXcCsv => "KeePassXC"@,
        ImportFormat::OnePasswordCsv => "1Password"@,
        _ => "Imported"@,
    }
}

/// A column number.
pub open spec fn col(c: Option<usize>) -> Option<int> {
    match c {
        Some(i) => Some(i as int),
        None => None,
    }
}

/// The column of an optional heading.
pub open spec fn column_opt(headers: Seq<Seq<char>>, name: Option<Seq<char>>) -> Option<int> {
    match name {
        Some(n) => column(headers, n),
        None => None,
    }
}

/// Whether these are the columns of a table in the given format.
pub open spec fn are_columns(c: Columns, f: ImportFormat, headers: Seq<Seq<char>>) -> bool {
    &&& col(c.title) == column_opt(headers, title_heading(f))
    &&& col(c.notes) == column_opt(headers, notes_heading(f))
    &&& col(c.category) == column_opt(headers, category_heading(f))
    &&& Some(c.username as int) == column(headers, "username"@)
    &&& Some(c.password as int) == column(headers, "password"@)
    &&& Some(c.url as int) == (if f == ImportFormat::OnePasswordCsv {
        website(headers)
    } else {
        column(headers, "url"@)
    })
}

fn wanted_names(f: ImportFormat) -> (v: Vec<String>)
    ensures
        texts(v@) == wanted(f),
{
    let v = match f {
        ImportFormat::BitwardenJson => Vec::new(),
        ImportFormat::BraveChromeCsv => vec![
            "name".to_owned(),
            "url".to_owned(),
            "username".to_owned(),
            "password".to_owned(),
        ],
        ImportFormat::FirefoxCsv => vec![
            "url".to_owned(),
            "username".to_owned(),
            "password".to_owned(),
        ],
        ImportFormat::LastPassCsv => vec![
            "name".to_owned(),
            "url".to_owned(),
            "username".to_owned(),
            "password".to_owned(),
            "extra".to_owned(),
            "grouping".to_owned(),
        ],
        ImportFormat::KeePassXcCsv => vec![
            "group".to_owned(),
            "title".to_owned(),
            "username".to_owned(),
            "password".to_owned(),
            "url".to_owned(),
            "notes".to_owned(),
        ],
        ImportFormat::OnePasswordCsv => vec![
            "title".to_owned(),
            "username".to_owned(),
            "password".to_owned(),
        ],
        ImportFormat::KeyStashCsv => vec![
            "title".to_owned(),
            "url".to_owned(),
            "username".to_owned(),
            "password".to_owned(),
            "notes".to_owned(),
            "category".to_owned(),
        ],
    };
    assert(texts(v@) =~= wanted(f));
    v
}

fn find_missing(names: &Vec<String>, headers: &Vec<String>) -> (r: Option<String>)
    ensures
        crate::db::records::text_opt(r) == first_missing(texts(names@), texts(headers@)),
{
    let ghost all = texts(names@);
    let mut i: usize = 0;
    assert(all.skip(0) =~= all);
    while i < names.len()
        invariant
            i <= names@.len(),
            all == texts(names@),
            first_missing(all, texts(headers@)) == first_missing(
                all.skip(i as int),
                texts(headers@),
            ),
        decreases names@.len() - i,
    {
        assert(all.skip(i as int)[0] == names@[i as int]@);
        if !has_heading(headers, names[i].as_str()) {
            return Some(names[i].clone());
        }
        assert(all.skip(i as int).drop_first() =~= all.skip(i + 1));
        i += 1;
    }
    None
}

proof fn lemma_none_missing(names: Seq<Seq<char>>, headers: Seq<Seq<char>>)
    requires
        first_missing(names, headers) is None,
    ensures
        forall|i: int| 0 <= i < names.len() ==> has_column(headers, #[trigger] names[i]),
    decreases names.len(),
{
    if names.len() > 0 {
        let d = names.drop_first();
        lemma_none_missing(d, headers);
        assert forall|i: int| 0 <= i < names.len() implies has_column(headers, #[trigger] names[i]) by {
            if i > 0 {
                assert(d[i - 1] == names[i]);
            }
        }
    }
}

/// Finds the columns of a table in the given format.
pub fn find_columns(f: ImportFormat, headers: &Vec<String>) -> (r: Result<Columns, String>)
    requires
        f != ImportFormat::BitwardenJson,
    ensures
        (r is Ok) == (columns_error(f, texts(headers@)) is None),
        r matches Ok(c) ==> are_columns(c, f, texts(headers@)),
        r matches Err(e) ==> columns_error(f, texts(headers@)) == Some(e@),
{
    let ghost h = texts(headers@);
    let names = wanted_names(f);
    if let Some(name) = find_missing(&names, headers) {
        if same_text(name.as_str(), "extra") {
            return Err("Missing 'extra' (notes) column".to_owned());
        }
        let mut e = "Missing '".to_owned();
        e.append(name.as_str());
        e.append("' column");
        return Err(e);
    }
    proof {
        lemma_none_missing(wanted(f), h);
        let w = wanted(f);
        match f {
            ImportFormat::BraveChromeCsv => {
                assert(w[1] == "url"@ && w[2] == "username"@ && w[3] == "password"@);
            },
            ImportFormat::FirefoxCsv => {
                assert(w[0] == "url"@ && w[1] == "username"@ && w[2] == "password"@);
            },
            ImportFormat::LastPassCsv => {
                assert(w[1] == "url"@ && w[2] == "username"@ && w[3] == "password"@);
            },
            ImportFormat::KeePassXcCsv => {
                assert(w[4] == "url"@ && w[2] == "username"@ && w[3] == "password"@);
            },
            ImportFormat::OnePasswordCsv => {
                assert(w[1] == "username"@ && w[2] == "password"@);
            },
            ImportFormat::KeyStashCsv => {
                assert(w[1] == "url"@ && w[2] == "username"@ && w[3] == "password"@);
            },
            _ => {},
        }
    }
    let url = match find_column(headers, "url") {
        Some(i) => i,
        None => {
            if f == ImportFormat::OnePasswordCsv {
                match find_column(headers, "website") {
                    Some(i) => i,
                    None => {
                        return Err("Missing URL / Website column".to_owned());
                    },
                }
            } else {
                assert(false);
                0
            }
        },
    };
    let username = find_column(headers, "username").unwrap();
    let password = find_column(headers, "password").unwrap();
    let title = match f {
        ImportFormat::BraveChromeCsv | ImportFormat::LastPassCsv => find_column(headers, "name"),
        ImportFormat::KeePassXcCsv
        | ImportFormat::OnePasswordCsv
        | ImportFormat::KeyStashCsv => find_column(headers, "title"),
        _ => None,
    };
    let notes = match f {
        ImportFormat::LastPassCsv => find_column(headers, "extra"),
        ImportFormat::KeePassXcCsv
        | ImportFormat::OnePasswordCsv
        | ImportFormat::KeyStashCsv => find_column(headers, "notes"),
        _ => None,
    };
    let category = match f {
        ImportFormat::LastPassCsv => find_column(headers, "grouping"),
        ImportFormat::KeePassXcCsv => find_column(headers, "group"),
        ImportFormat::KeyStashCsv => find_column(headers, "category"),
        _ => None,
    };
    Ok(Columns { title, url, username, password, notes, category })
}

/// Whether a row is long enough to hold a column.
pub open spec fn within(c: Option<usize>, len: nat) -> bool {
    c matches Some(i) ==> i < len
}

/// Whether a row is long enough to hold every column.
pub open spec fn long_enough(c: Columns, len: nat) -> bool {
    c.url < len && c.username < len && c.password < len && within(c.title, len) && within(
        c.notes,
        len,
    ) && within(c.category, len)
}

/// The credential in a row: none in a row that is too short, or that has neither a password nor
/// a title (an address, where the title is its host). A missing title is replaced by the
/// address, a missing category by that of the format.
pub open spec fn draft_of(f: ImportFormat, c: Columns, row: Seq<Seq<char>>) -> Option<DraftView> {
    if !long_enough(c, row.len()) {
        None
    } else {
        let url = row[c.url as int];
        let password = row[c.password as int];
        let name = match c.title {
            Some(t) => row[t as int],
            None => url,
        };
        if name.len() == 0 && password.len() == 0 {
            None
        } else {
            Some(
                DraftView {
                    title: match c.title {
                        Some(t) => if row[t as int].len() == 0 {
                            url
                        } else {
                            row[t as int]
                        },
                        None => domain_of(url),
                    },
                    category: match c.category {
                        Some(k) => if row[k as int].len() == 0 {
                            fallback_category(f)
                        } else {
                            row[k as int]
                        },
                        None => fallback_category(f),
                    },
                    username: row[c.username as int],
                    url,
                    password,
                    notes: match c.notes {
                        Some(n) => if row[n as int].len() == 0 {
                            None
                        } else {
                            Some(row[n as int])
                        },
                        None => None,
                    },
                },
            )
        }
    }
}

/// The credentials in the rows, in order.
pub open spec fn drafts_of(f: ImportFormat, c: Columns, rows: Seq<Seq<Seq<char>>>) -> Seq<DraftView>
    decreases rows.len(),
{
    if rows.len() == 0 {
        Seq::empty()
    } else {
        let before = drafts_of(f, c, rows.drop_last());
        match draft_of(f, c, rows.last()) {
            Some(d) => before.push(d),
            None => before,
        }
    }
}

fn fallback_text(f: ImportFormat) -> (s: String)
    ensures
        s@ == fallback_category(f),
{
    match f {
        ImportFormat::BraveChromeCsv => "Browser".to_owned(),
        ImportFormat::FirefoxCsv => "Browser".to_owned(),
        ImportFormat::LastPassCsv => "LastPass".to_owned(),
        ImportFormat::KeePassXcCsv => "KeePassXC".to_owned(),
        ImportFormat::OnePasswordCsv => "1Password".to_owned(),
        _ => "Imported".to_owned(),
    }
}

fn is_within(c: Option<usize>, len: usize) -> (b: bool)
    ensures
        b == within(c, len as nat),
{
    match c {
        Some(i) => i < len,
        None => true,
    }
}

/// The credential in a row.
pub fn make_draft(f: ImportFormat, c: &Columns, row: &Vec<String>) -> (r: Option<Draft>)
    ensures
        (r is Some) == (draft_of(f, *c, texts(row@)) is Some),
        r matches Some(d) ==> draft_of(f, *c, texts(row@)) == Some(d@),
{
    let n: usize = row.len();
    assert(texts(row@).len() == n);
    if !(c.url < n && c.username < n && c.password < n && is_within(c.title, n) && is_within(
        c.notes,
        n,
    ) && is_within(c.category, n)) {
        return None;
    }
    let url = &row[c.url];
    let password = &row[c.password];
    let name = match c.title {
        Some(t) => &row[t],
        None => url,
    };
    if name.as_str().is_empty() && password.as_str().is_empty() {
        return None;
    }
    let title = match c.title {
        Some(t) => if row[t].as_str().is_empty() {
            url.clone()
        } else {
            row[t].clone()
        },
        None => extract_domain(url.as_str()),
    };
    let category = match c.category {
        Some(k) => if row[k].as_str().is_empty() {
            fallback_text(f)
        } else {
            row[k].clone()
        },
        None => fallback_text(f),
    };
    let notes = match c.notes {
        Some(k) => if row[k].as_str().is_empty() {
            None
        } else {
            Some(row[k].clone())
        },
        None => None,
    };
    Some(
        Draft {
            title,
            category,
            username: row[c.username].clone(),
            url: url.clone(),
            password: password.clone(),
            notes,
        },
    )
}

fn push_draft(v: &mut Vec<Draft>, d: Draft)
    ensures
        drafts(final(v)@) == drafts(old(v)@).push(d@),
{
    let ghost before = drafts(v@);
    v.push(d);
    assert(drafts(v@) =~= before.push(d@));
}

/// The credentials in the rows; the rows are wiped.
pub fn make_drafts(f: ImportFormat, c: &Columns, rows: Vec<Vec<String>>) -> (out: Vec<Draft>)
    ensures
        drafts(out@) == drafts_of(f, *c, tables(rows@)),
{
    let ghost all = tables(rows@);
    let mut rows = rows;
    let n: usize = rows.len();
    let mut out: Vec<Draft> = Vec::new();
    let mut i: usize = 0;
    assert(drafts(out@) =~= drafts_of(f, *c, all.take(0)));
    while i < n
        invariant
            i <= n,
            n == rows@.len(),
            n == all.len(),
            forall|k: int| i <= k < n ==> texts(#[trigger] rows@[k]@) == all[k],
            drafts(out@) == drafts_of(f, *c, all.take(i as int)),
        decreases n - i,
    {
        assert(all.take(i + 1).drop_last() =~= all.take(i as int));
        assert(all.take(i + 1).last() == all[i as int]);
        assert(texts(rows@[i as int]@) == all[i as int]);
        if let Some(d) = make_draft(f, c, &rows[i]) {
            push_draft(&mut out, d);
        }
        wipe_row(&mut rows[i]);
        i += 1;
    }
    assert(all.take(i as int) =~= all);
    out
}

/// Whether a record holds a credential to be added.
pub open spec fn record_holds(r: RecordView, d: DraftView, key: Seq<u8>, now: Seq<char>) -> bool {
    holds(r, d.title, d.category, d.username, d.url, d.password, d.notes, key) && r.updated_at == now
}

/// Whether `new` is `v` with all the credentials added, in order.
pub open spec fn takes_over(
    new: VaultView,
    v: VaultView,
    d: Seq<DraftView>,
    key: Seq<u8>,
    now: Seq<char>,
) -> bool {
    &&& new.secrets.len() == v.secrets.len() + d.len()
    &&& new.secrets.take(v.secrets.len() as int) == v.secrets
    &&& forall|i: int|
        0 <= i < d.len() ==> record_holds(
            #[trigger] new.secrets[v.secrets.len() + i],
            d[i],
            key,
            now,
        ) && new.secrets[v.secrets.len() + i].id == v.next_id + i
    &&& new.next_id == v.next_id + d.len()
    &&& new == (VaultView { secrets: new.secrets, next_id: new.next_id, ..v })
}

/// Whether every credential is of a size that encryption takes.
pub open spec fn all_storable(d: Seq<DraftView>) -> bool {
    forall|i: int|
        0 <= i < d.len() ==> storable((#[trigger] d[i]).password, d[i].notes)
}

/// Whether adding the credentials one by one fails at the `i`-th with the given error: the
/// identity that it was to get is taken where nothing else is the matter.
pub open spec fn fails_at(v: VaultView, d: Seq<DraftView>, i: int, error: Seq<char>) -> bool {
    &&& 0 <= i < d.len()
    &&& all_storable(d.take(i))
    &&& v.next_id + i <= i64::MAX
    &&& if !storable(d[i].password, d[i].notes) {
        error == "aead::Error"@
    } else if v.next_id + i == i64::MAX {
        error == "database or disk is full"@
    } else {
        error == "UNIQUE constraint failed: secrets.sync_uuid"@ && v.secrets.len() + i > 0
    }
}

/// Why the `i`-th credential cannot be added after those before it, if it cannot.
pub open spec fn row_trouble(
    v: VaultView,
    d: Seq<DraftView>,
    ids: Seq<Seq<char>>,
    i: int,
) -> Option<Seq<char>> {
    if !storable(d[i].password, d[i].notes) {
        Some("aead::Error"@)
    } else if v.next_id + i >= i64::MAX {
        Some("database or disk is full"@)
    } else if has_uuid(v.secrets, ids[i]) || ids.take(i).contains(ids[i]) {
        Some("UNIQUE constraint failed: secrets.sync_uuid"@)
    } else {
        None
    }
}

/// Why the first of the first `n` credentials that cannot be added cannot, if there is one.
pub open spec fn import_trouble(
    v: VaultView,
    d: Seq<DraftView>,
    ids: Seq<Seq<char>>,
    n: int,
) -> Option<Seq<char>>
    decreases n,
{
    if n <= 0 {
        None
    } else {
        match import_trouble(v, d, ids, n - 1) {
            Some(e) => Some(e),
            None => row_trouble(v, d, ids, n - 1),
        }
    }
}

/// Whether adding the credentials under some new random identities fails with the given error.
pub open spec fn import_fails(v: VaultView, d: Seq<DraftView>, error: Seq<char>) -> bool {
    exists|ids: Seq<Seq<char>>|
        ids.len() == d.len() && (forall|i: int|
            0 <= i < ids.len() ==> is_uuid_v4(#[trigger] ids[i])) && #[trigger] import_trouble(
            v,
            d,
            ids,
            d.len() as int,
        ) == Some(error)
}

proof fn lemma_import_trouble_stays(
    v: VaultView,
    d: Seq<DraftView>,
    ids: Seq<Seq<char>>,
    m: int,
    n: int,
)
    requires
        0 <= m <= n,
        import_trouble(v, d, ids, m) is Some,
    ensures
        import_trouble(v, d, ids, n) == import_trouble(v, d, ids, m),
    decreases n - m,
{
    if m < n {
        lemma_import_trouble_stays(v, d, ids, m, n - 1);
    }
}

/// Credentials can all be added exactly where each is of a size that encryption takes, there are
/// ids enough, and no identity is taken.
proof fn lemma_import_trouble(v: VaultView, d: Seq<DraftView>, ids: Seq<Seq<char>>, n: int)
    requires
        0 <= n <= d.len(),
        n <= ids.len(),
        v.next_id <= i64::MAX,
    ensures
        import_trouble(v, d, ids, n) is None <==> all_storable(d.take(n)) && v.next_id + n
            <= i64::MAX && unused(ids, n, v.secrets),
    decreases n,
{
    if n > 0 {
        lemma_import_trouble(v, d, ids, n - 1);
        let k = n - 1;
        assert forall|i: int| 0 <= i < k implies d.take(n)[i] == #[trigger] d.take(k)[i] by {}
        assert(d.take(n)[k] == d[k]);
        if all_storable(d.take(n)) {
            assert forall|i: int| 0 <= i < k implies storable(
                (#[trigger] d.take(k)[i]).password,
                d.take(k)[i].notes,
            ) by {
                assert(d.take(n)[i] == d.take(k)[i]);
            }
        }
        if all_storable(d.take(k)) && storable(d[k].password, d[k].notes) {
            assert forall|i: int| 0 <= i < n implies storable(
                (#[trigger] d.take(n)[i]).password,
                d.take(n)[i].notes,
            ) by {
                if i < k {
                    assert(d.take(n)[i] == d.take(k)[i]);
                }
            }
        }
        if unused(ids, n, v.secrets) {
            assert(!has_uuid(v.secrets, ids[k]));
            if ids.take(k).contains(ids[k]) {
                let j = choose|j: int| 0 <= j < k && ids.take(k)[j] == ids[k];
                assert(ids[j] != ids[k]);
            }
        }
        if unused(ids, k, v.secrets) && !has_uuid(v.secrets, ids[k]) && !ids.take(k).contains(
            ids[k],
        ) {
            assert forall|i: int, j: int| 0 <= i < j < n implies #[trigger] ids[i]
                != #[trigger] ids[j] by {
                if j == k {
                    assert(ids.take(k)[i] == ids[i]);
                }
            }
        }
    }
}

proof fn lemma_trouble_fails(v: VaultView, d: Seq<DraftView>, ids: Seq<Seq<char>>, n: int)
    requires
        0 <= n <= d.len(),
        n <= ids.len(),
        v.next_id <= i64::MAX,
        import_trouble(v, d, ids, n) is Some,
    ensures
        exists|i: int| fails_at(v, d, i, import_trouble(v, d, ids, n)->0),
    decreases n,
{
    if n > 0 {
        if import_trouble(v, d, ids, n - 1) is Some {
            lemma_trouble_fails(v, d, ids, n - 1);
        } else {
            lemma_import_trouble(v, d, ids, n - 1);
            let e = import_trouble(v, d, ids, n)->0;
            if n - 1 == 0 {
                assert(ids.take(0).len() == 0);
            }
            assert(fails_at(v, d, n - 1, e));
        }
    }
}

fn wipe_drafts(v: Vec<Draft>) {
    let mut v = v;
    let n: usize = v.len();
    let mut i: usize = 0;
    while i < n
        invariant
            i <= n,
            n == v@.len(),
        decreases n - i,
    {
        wipe_text(&mut v[i].password);
        i += 1;
    }
}

fn add_drafts(vault: Vault, d: &Vec<Draft>, ids: &Vec<String>, key: &[u8; 32], now: &str) -> (r: Result<
    Vault,
    String,
>)
    requires
        vault@.wf(),
        ids@.len() >= d@.len(),
    ensures
        error_of(r) == import_trouble(vault@, drafts(d@), texts(ids@), d@.len() as int),
        r matches Ok(new) ==> takes_over(new@, vault@, drafts(d@), key@, now@) && new@.wf()
            && has_identities(new@, vault@, texts(ids@), d@.len() as int),
{
    let ghost start = vault@;
    let ghost all = drafts(d@);
    let ghost f = texts(ids@);
    let mut work = vault;
    let mut i: usize = 0;
    assert(work@.secrets.take(start.secrets.len() as int) =~= start.secrets);
    while i < d.len()
        invariant
            i <= d@.len(),
            ids@.len() >= d@.len(),
            all == drafts(d@),
            f == texts(ids@),
            start == vault@,
            work@.wf(),
            takes_over(work@, start, all.take(i as int), key@, now@),
            has_identities(work@, start, f, i as int),
            start.next_id <= i64::MAX,
            import_trouble(start, all, f, i as int) is None,
        decreases d@.len() - i,
    {
        let x = &d[i];
        assert(all[i as int] == x@);
        assert(f[i as int] == ids@[i as int]@);
        let notes: Option<&str> = match &x.notes {
            Some(n) => Some(n.as_str()),
            None => None,
        };
        let ghost before = work@;
        proof {
            lemma_taken(before, start, f, i as int);
        }
        match add_secret_with(
            &mut work,
            x.title.as_str(),
            x.category.as_str(),
            x.username.as_str(),
            x.url.as_str(),
            x.password.as_str(),
            notes,
            key,
            now,
            ids[i].clone(),
        ) {
            Err(e) => {
                proof {
                    lemma_import_trouble_stays(start, all, f, i + 1, all.len() as int);
                }
                return Err(e);
            },
            Ok(_) => {},
        }
        proof {
            let n = start.secrets.len();
            let s = work@.secrets;
            assert(s.last().id == before.next_id);
            assert(s.take(n as int) =~= before.secrets.take(n as int));
            assert forall|k: int| 0 <= k < i + 1 implies record_holds(
                #[trigger] s[n + k],
                all.take(i + 1)[k],
                key@,
                now@,
            ) && s[n + k].id == start.next_id + k && s[n + k].uuid == f[k] by {
                if k < i {
                    assert(s[n + k] == before.secrets[n + k]);
                    assert(all.take(i as int)[k] == all.take(i + 1)[k]);
                } else {
                    assert(s[n + k] == s.last());
                }
            }
        }
        i += 1;
    }
    assert(all.take(i as int) =~= all);
    Ok(work)
}

/// Whether the records of `new` that `v` has not have the given identities, in order.
pub open spec fn has_identities(new: VaultView, v: VaultView, ids: Seq<Seq<char>>, n: int) -> bool {
    forall|i: int|
        0 <= i < n ==> (#[trigger] new.secrets[v.secrets.len() + i]).uuid == ids[i]
}

/// Which identities are taken after some credentials were added.
proof fn lemma_taken(new: VaultView, v: VaultView, ids: Seq<Seq<char>>, n: int)
    requires
        0 <= n < ids.len(),
        new.secrets.len() == v.secrets.len() + n,
        new.secrets.take(v.secrets.len() as int) == v.secrets,
        has_identities(new, v, ids, n),
    ensures
        has_uuid(new.secrets, ids[n]) == (has_uuid(v.secrets, ids[n]) || ids.take(n).contains(
            ids[n],
        )),
{
    let s = new.secrets;
    let m = v.secrets.len() as int;
    if has_uuid(s, ids[n]) {
        let k = choose|k: int| 0 <= k < s.len() && (#[trigger] s[k]).uuid == ids[n];
        if k < m {
            assert(s.take(m)[k] == s[k]);
            assert(v.secrets[k].uuid == ids[n]);
        } else {
            assert(s[m + (k - m)].uuid == ids[k - m]);
            assert(ids.take(n)[k - m] == ids[n]);
        }
    }
    if has_uuid(v.secrets, ids[n]) {
        let k = choose|k: int| 0 <= k < m && (#[trigger] v.secrets[k]).uuid == ids[n];
        assert(s.take(m)[k] == s[k]);
        assert(s[k].uuid == ids[n]);
    }
    if ids.take(n).contains(ids[n]) {
        let k = choose|k: int| 0 <= k < n && ids.take(n)[k] == ids[n];
        assert(s[m + k].uuid == ids[k]);
    }
}

/// Whether the change, run on some copy of the vault, comes to the given result.
pub open spec fn comes_to<T, F: FnOnce(Vault) -> Result<(Vault, T), String>>(
    body: F,
    v: VaultView,
    r: Result<(Vault, T), String>,
) -> bool {
    exists|copy: Vault| copy@ == v && #[trigger] call_ensures(body, (copy,), r)
}

/// Runs a change on a copy of the vault, and keeps it only if the change succeeds: a failure
/// part of the way leaves nothing behind.
pub fn with_import_transaction<T, F: FnOnce(Vault) -> Result<(Vault, T), String>>(
    vault: &mut Vault,
    body: F,
) -> (r: Result<T, String>)
    requires
        forall|v: Vault| v@ == old(vault)@ ==> #[trigger] call_requires(body, (v,)),
    ensures
        r matches Ok(t) ==> comes_to(body, old(vault)@, Ok((*final(vault), t))),
        r matches Err(e) ==> *final(vault) == *old(vault) && comes_to(body, old(vault)@, Err(e)),
{
    let copy = vault.clone();
    let ghost c = copy;
    let r = body(copy);
    assert(call_ensures(body, (c,), r));
    match r {
        Ok(p) => {
            let (w, t) = p;
            assert(comes_to(body, old(vault)@, Ok::<(Vault, T), String>((w, t))));
            *vault = w;
            Ok(t)
        },
        Err(e) => {
            assert(comes_to(body, old(vault)@, Err::<(Vault, T), String>(e)));
            Err(e)
        },
    }
}

/// Whether `t` is what a CSV text is read as; a text that was written as a table is read as that
/// table.
pub open spec fn reading(
    data: Seq<u8>,
    t: Result<(Seq<Seq<char>>, Seq<Seq<Seq<char>>>), Seq<char>>,
) -> bool {
    t == table_of(data) && forall|rows: Seq<Seq<Seq<char>>>|
        data == encode_utf8(#[trigger] csv_text(rows)) && reads_back(rows) && rows.len() > 0 ==> (
        t matches Ok(p) && p.0 == rows[0] && p.1 == rows.drop_first())
}

/// Whether credentials were added: all of them, or where that failed none.
pub open spec fn added_all(
    r: Result<usize, String>,
    before: VaultView,
    now_holds: VaultView,
    d: Seq<DraftView>,
    key: Seq<u8>,
    now: Seq<char>,
) -> bool {
    match r {
        Ok(n) => n == d.len() && takes_over(now_holds, before, d, key, now) && all_storable(d)
            && before.next_id + d.len() <= i64::MAX && forall|i: int|
            0 <= i < d.len() ==> is_uuid_v4(
                (#[trigger] now_holds.secrets[before.secrets.len() + i]).uuid,
            ),
        Err(e) => now_holds == before && import_fails(before, d, e@),
    }
}

/// Whether a table was taken over in the given format: what keeps it from being read is
/// reported, otherwise every credential in it is added, or where that failed none.
pub open spec fn took_over_table(
    r: Result<usize, String>,
    before: VaultView,
    now_holds: VaultView,
    t: Result<(Seq<Seq<char>>, Seq<Seq<Seq<char>>>), Seq<char>>,
    f: ImportFormat,
    key: Seq<u8>,
    now: Seq<char>,
) -> bool {
    match t {
        Err(e) => now_holds == before && (r matches Err(x) && x@ == e),
        Ok(p) => match columns_error(f, p.0) {
            Some(e) => now_holds == before && (r matches Err(x) && x@ == e),
            None => exists|c: Columns|
                #[trigger] are_columns(c, f, p.0) && added_all(
                    r,
                    before,
                    now_holds,
                    drafts_of(f, c, p.1),
                    key,
                    now,
                ),
        },
    }
}

/// Adds credentials under the given identities, in order, all of them or none.
pub fn import_drafts_with(
    vault: &mut Vault,
    d: &Vec<Draft>,
    ids: &Vec<String>,
    key: &[u8; 32],
    now: &str,
) -> (r: Result<usize, String>)
    requires
        old(vault)@.wf(),
        ids@.len() >= d@.len(),
    ensures
        (r is Ok) == (all_storable(drafts(d@)) && old(vault)@.next_id + d@.len() <= i64::MAX
            && unused(texts(ids@), d@.len() as int, old(vault)@.secrets)),
        r matches Ok(n) ==> n == d@.len() && takes_over(
            final(vault)@,
            old(vault)@,
            drafts(d@),
            key@,
            now@,
        ) && has_identities(final(vault)@, old(vault)@, texts(ids@), d@.len() as int),
        r is Err ==> *final(vault) == *old(vault),
        error_of(r) == import_trouble(
            old(vault)@,
            drafts(d@),
            texts(ids@),
            d@.len() as int,
        ),
        final(vault)@.wf(),
{
    let n: usize = d.len();
    proof {
        assert(drafts(d@).len() == n);
        assert(texts(ids@).len() == ids@.len());
        assert(drafts(d@).take(n as int) =~= drafts(d@));
        lemma_import_trouble(vault@, drafts(d@), texts(ids@), n as int);
    }
    let body = |v: Vault| -> (o: Result<(Vault, usize), String>)
        requires
            v@.wf(),
        ensures
            error_of(o) == import_trouble(v@, drafts(d@), texts(ids@), d@.len() as int),
            o matches Ok(p) ==> p.1 == n && takes_over(p.0@, v@, drafts(d@), key@, now@)
                && has_identities(p.0@, v@, texts(ids@), d@.len() as int) && p.0@.wf(),
        {
            match add_drafts(v, d, ids, key, now) {
                Ok(w) => Ok((w, n)),
                Err(e) => Err(e),
            }
        };
    with_import_transaction(vault, body)
}

/// Adds credentials under new random identities, all of them or none.
pub fn import_drafts(vault: &mut Vault, d: Vec<Draft>, key: &[u8; 32], now: &str) -> (r: Result<
    usize,
    String,
>)
    requires
        old(vault)@.wf(),
    ensures
        added_all(r, old(vault)@, final(vault)@, drafts(d@), key@, now@),
        final(vault)@.wf(),
{
    let ids = new_uuids(d.len());
    let r = import_drafts_with(vault, &d, &ids, key, now);
    proof {
        let n = d@.len() as int;
        assert(drafts(d@).len() == n);
        assert(drafts(d@).take(n) =~= drafts(d@));
        assert forall|i: int| 0 <= i < n implies is_uuid_v4(#[trigger] texts(ids@)[i]) by {
            assert(is_uuid_v4(ids@[i]@));
        }
        if r is Ok {
            let m = old(vault)@.secrets.len();
            assert forall|i: int| 0 <= i < n implies is_uuid_v4(
                (#[trigger] vault@.secrets[m + i]).uuid,
            ) by {
                assert(texts(ids@)[i] == ids@[i]@);
            }
        }
    }
    wipe_drafts(d);
    r
}

/// Takes over the credentials of a CSV export in the given format.
pub fn import_csv(vault: &mut Vault, data: &[u8], f: ImportFormat, key: &[u8; 32], now: &str) -> (r:
    Result<usize, String>)
    requires
        old(vault)@.wf(),
        f != ImportFormat::BitwardenJson,
    ensures
        exists|t: Result<(Seq<Seq<char>>, Seq<Seq<Seq<char>>>), Seq<char>>|
            #[trigger] reading(data@, t) && took_over_table(
                r,
                old(vault)@,
                final(vault)@,
                t,
                f,
                key@,
                now@,
            ),
        final(vault)@.wf(),
{
    let read = read_csv_records(data);
    let ghost t = headed(read);
    assert(reading(data@, t));
    match read {
        Err(e) => Err(e),
        Ok(p) => {
            let (headers, rows) = p;
            match find_columns(f, &headers) {
                Err(e) => Err(e),
                Ok(c) => {
                    let d = make_drafts(f, &c, rows);
                    let r = import_drafts(vault, d, key, now);
                    assert(are_columns(c, f, t->Ok_0.0));
                    r
                },
            }
        },
    }
}

/// Takes over a Brave or Chrome export.
pub fn import_brave_chrome_csv(vault: &mut Vault, data: &[u8], key: &[u8; 32], now: &str) -> (r: Result<
    usize,
    String,
>)
    requires
        old(vault)@.wf(),
    ensures
        exists|t: Result<(Seq<Seq<char>>, Seq<Seq<Seq<char>>>), Seq<char>>|
            #[trigger] reading(data@, t) && took_over_table(
                r,
                old(vault)@,
                final(vault)@,
                t,
                ImportFormat::BraveChromeCsv,
                key@,
                now@,
            ),
        final(vault)@.wf(),
{
    import_csv(vault, data, ImportFormat::BraveChromeCsv, key, now)
}

/// Takes over a Firefox export.
pub fn import_firefox_csv(vault: &mut Vault, data: &[u8], key: &[u8; 32], now: &str) -> (r: Result<
    usize,
    String,
>)
    requires
        old(vault)@.wf(),
    ensures
        exists|t: Result<(Seq<Seq<char>>, Seq<Seq<Seq<char>>>), Seq<char>>|
            #[trigger] reading(data@, t) && took_over_table(
                r,
                old(vault)@,
                final(vault)@,
                t,
                ImportFormat::FirefoxCsv,
                key@,
                now@,
            ),
        final(vault)@.wf(),
{
    import_csv(vault, data, ImportFormat::FirefoxCsv, key, now)
}

/// Takes over a LastPass export.
pub fn import_lastpass_csv(vault: &mut Vault, data: &[u8], key: &[u8; 32], now: &str) -> (r: Result<
    usize,
    String,
>)
    requires
        old(vault)@.wf(),
    ensures
        exists|t: Result<(Seq<Seq<char>>, Seq<Seq<Seq<char>>>), Seq<char>>|
            #[trigger] reading(data@, t) && took_over_table(
                r,
                old(vault)@,
                final(vault)@,
                t,
                ImportFormat::LastPassCsv,
                key@,
                now@,
            ),
        final(vault)@.wf(),
{
    import_csv(vault, data, ImportFormat::LastPassCsv, key, now)
}

/// Takes over a KeePassXC export.
pub fn import_keepassxc_csv(vault: &mut Vault, data: &[u8], key: &[u8; 32], now: &str) -> (r: Result<
    usize,
    String,
>)
    requires
        old(vault)@.wf(),
    ensures
        exists|t: Result<(Seq<Seq<char>>, Seq<Seq<Seq<char>>>), Seq<char>>|
            #[trigger] reading(data@, t) && took_over_table(
                r,
                old(vault)@,
                final(vault)@,
                t,
                ImportFormat::KeePassXcCsv,
                key@,
                now@,
            ),
        final(vault)@.wf(),
{
    import_csv(vault, data, ImportFormat::KeePassXcCsv, key, now)
}

/// Takes over a 1Password export.
pub fn import_onepassword_csv(vault: &mut Vault, data: &[u8], key: &[u8; 32], now: &str) -> (r: Result<
    usize,
    String,
>)
    requires
        old(vault)@.wf(),
    ensures
        exists|t: Result<(Seq<Seq<char>>, Seq<Seq<Seq<char>>>), Seq<char>>|
            #[trigger] reading(data@, t) && took_over_table(
                r,
                old(vault)@,
                final(vault)@,
                t,
                ImportFormat::OnePasswordCsv,
                key@,
                now@,
            ),
        final(vault)@.wf(),
{
    import_csv(vault, data, ImportFormat::OnePasswordCsv, key, now)
}

/// Takes over what `export_vault_csv` wrote; each record keeps its category.
pub fn import_keystash_csv(vault: &mut Vault, data: &[u8], key: &[u8; 32], now: &str) -> (r: Result<
    usize,
    String,
>)
    requires
        old(vault)@.wf(),
    ensures
        exists|t: Result<(Seq<Seq<char>>, Seq<Seq<Seq<char>>>), Seq<char>>|
            #[trigger] reading(data@, t) && took_over_table(
                r,
                old(vault)@,
                final(vault)@,
                t,
                ImportFormat::KeyStashCsv,
                key@,
                now@,
            ),
        final(vault)@.wf(),
{
    import_csv(vault, data, ImportFormat::KeyStashCsv, key, now)
}

/// A folder of a Bitwarden export.
#[derive(Debug)]
pub struct BwFolder {
    pub id: Option<String>,
    pub name: String,
}

/// The login of a Bitwarden item; `uris` are its addresses.
#[derive(Debug)]
pub struct BwLogin {
    pub username: Option<String>,
    pub password: Option<String>,
    pub uris: Option<Vec<Option<String>>>,
}

/// An item of a Bitwarden export.
#[derive(Debug)]
pub struct BwItem {
    /// 1 is a login; secure notes, cards and identities are others.
    pub item_type: i32,
    pub name: String,
    pub folder_id: Option<String>,
    pub notes: Option<String>,
    pub login: Option<BwLogin>,
}

/// A Bitwarden export.
#[derive(Debug)]
pub struct BwExport {
    pub folders: Option<Vec<BwFolder>>,
    pub items: Option<Vec<BwItem>>,
}

/// A text, or nothing where there is none.
pub open spec fn or_empty(s: Option<String>) -> Seq<char> {
    match s {
        Some(t) => t@,
        None => Seq::empty(),
    }
}

/// The name of the folder with the given id: the last one, if there are several.
pub open spec fn folder_name(folders: Seq<BwFolder>, id: Seq<char>) -> Option<Seq<char>>
    decreases folders.len(),
{
    if folders.len() == 0 {
        None
    } else if folders.last().id is Some && folders.last().id->0@ == id {
        Some(folders.last().name@)
    } else {
        folder_name(folders.drop_last(), id)
    }
}

/// The folders of an export.
pub open spec fn folders_of(e: BwExport) -> Seq<BwFolder> {
    match e.folders {
        Some(f) => f@,
        None => Seq::empty(),
    }
}

/// The items of an export.
pub open spec fn items_of(e: BwExport) -> Seq<BwItem> {
    match e.items {
        Some(i) => i@,
        None => Seq::empty(),
    }
}

/// The first address of a login.
pub open spec fn first_uri(l: BwLogin) -> Seq<char> {
    match l.uris {
        Some(u) => if u@.len() > 0 {
            or_empty(u@[0])
        } else {
            Seq::empty()
        },
        None => Seq::empty(),
    }
}

/// The credential in a login item; its category is the name of its folder.
pub open spec fn bw_draft(item: BwItem, folders: Seq<BwFolder>) -> DraftView {
    let named = match item.folder_id {
        Some(id) => folder_name(folders, id@),
        None => None,
    };
    DraftView {
        title: item.name@,
        category: match named {
            Some(n) => n,
            None => "Imported"@,
        },
        username: match item.login {
            Some(l) => or_empty(l.username),
            None => Seq::empty(),
        },
        url: match item.login {
            Some(l) => first_uri(l),
            None => Seq::empty(),
        },
        password: match item.login {
            Some(l) => or_empty(l.password),
            None => Seq::empty(),
        },
        notes: crate::db::records::text_opt(item.notes),
    }
}

/// The credentials in the login items, in order.
pub open spec fn bw_drafts(items: Seq<BwItem>, folders: Seq<BwFolder>) -> Seq<DraftView>
    decreases items.len(),
{
    if items.len() == 0 {
        Seq::empty()
    } else if items.last().item_type == 1 {
        bw_drafts(items.drop_last(), folders).push(bw_draft(items.last(), folders))
    } else {
        bw_drafts(items.drop_last(), folders)
    }
}

fn find_folder(folders: &Vec<BwFolder>, id: &String) -> (r: Option<String>)
    ensures
        crate::db::records::text_opt(r) == folder_name(folders@, id@),
{
    let mut i: usize = folders.len();
    assert(folders@.take(i as int) =~= folders@);
    while i > 0
        invariant
            i <= folders@.len(),
            folder_name(folders@, id@) == folder_name(folders@.take(i as int), id@),
        decreases i,
    {
        assert(folders@.take(i as int).last() == folders@[i - 1]);
        assert(folders@.take(i as int).drop_last() =~= folders@.take(i - 1));
        let f = &folders[i - 1];
        if let Some(x) = &f.id {
            if *x == *id {
                return Some(f.name.clone());
            }
        }
        i -= 1;
    }
    None
}

fn or_nothing(s: &Option<String>) -> (r: String)
    ensures
        r@ == or_empty(*s),
{
    match s {
        Some(t) => t.clone(),
        None => String::new(),
    }
}

fn bw_to_draft(item: &BwItem, folders: &Vec<BwFolder>) -> (d: Draft)
    ensures
        d@ == bw_draft(*item, folders@),
{
    let named = match &item.folder_id {
        Some(id) => find_folder(folders, id),
        None => None,
    };
    let category = match named {
        Some(n) => n,
        None => "Imported".to_owned(),
    };
    let (username, password, url) = match &item.login {
        Some(l) => {
            let url = match &l.uris {
                Some(u) => if u.len() > 0 {
                    or_nothing(&u[0])
                } else {
                    String::new()
                },
                None => String::new(),
            };
            (or_nothing(&l.username), or_nothing(&l.password), url)
        },
        None => (String::new(), String::new(), String::new()),
    };
    Draft {
        title: item.name.clone(),
        category,
        username,
        url,
        password,
        notes: crate::db::records::copy_text_opt(&item.notes),
    }
}

/// Takes over the logins of a Bitwarden export, all of them or none; items of other kinds are
/// skipped. Returns how many were taken over and how many skipped.
pub fn import_bitwarden_json(vault: &mut Vault, export: &BwExport, key: &[u8; 32], now: &str) -> (r:
    Result<(usize, usize), String>)
    requires
        old(vault)@.wf(),
    ensures
        r matches Ok(p) ==> added_all(
            Ok(p.0),
            old(vault)@,
            final(vault)@,
            bw_drafts(items_of(*export), folders_of(*export)),
            key@,
            now@,
        ) && p.0 + p.1 == items_of(*export).len(),
        r matches Err(e) ==> added_all(
            Err(e),
            old(vault)@,
            final(vault)@,
            bw_drafts(items_of(*export), folders_of(*export)),
            key@,
            now@,
        ),
        final(vault)@.wf(),
        bw_drafts(items_of(*export), folders_of(*export)).len() == 0 ==> r is Ok,
{
    let none: Vec<BwFolder> = Vec::new();
    assert(none@ =~= Seq::empty());
    let folders = match &export.folders {
        Some(f) => f,
        None => &none,
    };
    let no_items: Vec<BwItem> = Vec::new();
    assert(no_items@ =~= Seq::empty());
    let items = match &export.items {
        Some(i) => i,
        None => &no_items,
    };
    let mut d: Vec<Draft> = Vec::new();
    let mut skipped: usize = 0;
    let mut i: usize = 0;
    assert(drafts(d@) =~= bw_drafts(items@.take(0), folders@));
    while i < items.len()
        invariant
            i <= items@.len(),
            drafts(d@) == bw_drafts(items@.take(i as int), folders@),
            d@.len() + skipped == i,
        decreases items@.len() - i,
    {
        assert(items@.take(i + 1).drop_last() =~= items@.take(i as int));
        assert(items@.take(i + 1).last() == items@[i as int]);
        if items[i].item_type == 1 {
            push_draft(&mut d, bw_to_draft(&items[i], folders));
            assert(drafts(d@).len() == d@.len());
        } else {
            skipped += 1;
        }
        i += 1;
    }
    assert(items@.take(i as int) =~= items@);
    assert(drafts(d@).len() == d@.len());
    match import_drafts(vault, d, key, now) {
        Ok(n) => Ok((n, skipped)),
        Err(e) => Err(e),
    }
}

/// The header row of an exported table.
pub open spec fn export_header() -> Seq<Seq<char>> {
    seq!["title"@, "url"@, "username"@, "password"@, "notes"@, "category"@]
}

/// The cells of a record in an exported table. The password gets no apostrophe: it would be
/// wrong after an import.
pub open spec fn export_cells(s: RecordView, key: Seq<u8>) -> Seq<Seq<char>> {
    seq![
        guarded(s.title),
        guarded(s.url),
        guarded(s.username),
        shown(s.password, key),
        guarded(shown_opt(s.notes, key)),
        guarded(s.category),
    ]
}

/// Whether an id is in a list.
pub open spec fn listed(ids: Seq<i64>, id: int) -> bool {
    exists|i: int| 0 <= i < ids.len() && #[trigger] ids[i] == id
}

/// Whether a record is to be exported.
pub open spec fn chosen(s: RecordView, filter: Option<Seq<i64>>) -> bool {
    match filter {
        None => true,
        Some(ids) => listed(ids, s.id),
    }
}

/// The rows of an exported table.
pub open spec fn export_rows(s: Seq<RecordView>, filter: Option<Seq<i64>>, key: Seq<u8>) -> Seq<
    Seq<Seq<char>>,
>
    decreases s.len(),
{
    if s.len() == 0 {
        seq![export_header()]
    } else if chosen(s.last(), filter) {
        export_rows(s.drop_last(), filter, key).push(export_cells(s.last(), key))
    } else {
        export_rows(s.drop_last(), filter, key)
    }
}

/// The ids of an optional list.
pub open spec fn ids_opt(v: Option<Vec<i64>>) -> Option<Seq<i64>> {
    match v {
        Some(w) => Some(w@),
        None => None,
    }
}

fn is_chosen(s: &SecretRecord, filter: &Option<Vec<i64>>) -> (b: bool)
    ensures
        b == chosen(s@, ids_opt(*filter)),
{
    match filter {
        None => true,
        Some(ids) => {
            let mut i: usize = 0;
            while i < ids.len()
                invariant
                    i <= ids@.len(),
                    ids_opt(*filter) == Some(ids@),
                    forall|k: int| 0 <= k < i ==> #[trigger] ids@[k] != s@.id,
                decreases ids@.len() - i,
            {
                if ids[i] == s.id {
                    assert(ids@[i as int] == s@.id);
                    assert(listed(ids@, s@.id));
                    return true;
                }
                i += 1;
            }
            false
        },
    }
}

fn make_cells(s: &SecretRecord, key: &[u8; 32]) -> (v: Vec<String>)
    ensures
        texts(v@) == export_cells(s@, key@),
{
    let mut notes = reveal_notes(&s.encrypted_notes, key);
    let v = vec![
        guard_cell(s.title.as_str()),
        guard_cell(s.url.as_str()),
        guard_cell(s.username.as_str()),
        reveal_text(s.encrypted_password.as_slice(), key),
        guard_cell(notes.as_str()),
        guard_cell(s.category.as_str()),
    ];
    wipe_text(&mut notes);
    assert(texts(v@) =~= export_cells(s@, key@));
    v
}

/// Writes the records out as a table, with their passwords in plain text, in the order of their
/// titles; only those with the given ids, if any are given. Returns the text and the number of
/// records in it.
pub fn export_vault_csv(vault: &Vault, key: &[u8; 32], filter_ids: &Option<Vec<i64>>) -> (r: (
    String,
    usize,
))
    ensures
        exists|s: Seq<RecordView>|
            by_title(s) && s.to_multiset() == vault@.secrets.to_multiset() && r.0@ == csv_text(
                #[trigger] export_rows(s, ids_opt(*filter_ids), key@),
            ) && r.1 + 1 == export_rows(s, ids_opt(*filter_ids), key@).len(),
{
    let secrets = get_secrets(vault);
    let ghost all = records(secrets@);
    let ghost ids = ids_opt(*filter_ids);
    let mut text = "title,url,username,password,notes,category".to_owned();
    text.push('\n');
    let mut count: usize = 0;
    let mut i: usize = 0;
    proof {
        lemma_header_text();
        assert(all.take(0).len() == 0);
        let e = Seq::<Seq<Seq<char>>>::empty();
        assert(seq![export_header()].drop_last() =~= e);
        assert(csv_text(seq![export_header()]) =~= csv_text(e) + row_text(export_header())
            + seq!['\n']);
    }
    while i < secrets.len()
        invariant
            i <= secrets@.len(),
            all == records(secrets@),
            ids == ids_opt(*filter_ids),
            text@ == csv_text(export_rows(all.take(i as int), ids, key@)),
            count + 1 == export_rows(all.take(i as int), ids, key@).len(),
            count <= i,
        decreases secrets@.len() - i,
    {
        assert(all.take(i + 1).drop_last() =~= all.take(i as int));
        assert(all.take(i + 1).last() == secrets@[i as int]@);
        if is_chosen(&secrets[i], filter_ids) {
            let mut cells = make_cells(&secrets[i], key);
            let mut row = write_row(&cells);
            let ghost rows_before = export_rows(all.take(i as int), ids, key@);
            let ghost cells_view = texts(cells@);
            text.append(row.as_str());
            text.push('\n');
            wipe_text(&mut row);
            wipe_row(&mut cells);
            proof {
                let now = rows_before.push(cells_view);
                assert(now.drop_last() =~= rows_before);
                assert(text@ =~= csv_text(rows_before) + row_text(cells_view) + seq!['\n']);
            }
            count += 1;
        }
        i += 1;
    }
    assert(all.take(i as int) =~= all);
    assert(text@ == csv_text(export_rows(all, ids, key@)));
    (text, count)
}

proof fn lemma_header_text()
    ensures
        row_text(export_header()) == "title,url,username,password,notes,category"@,
        csv_text(Seq::<Seq<Seq<char>>>::empty()) == Seq::<char>::empty(),
{
    reveal_strlit("title");
    reveal_strlit("url");
    reveal_strlit("username");
    reveal_strlit("password");
    reveal_strlit("notes");
    reveal_strlit("category");
    reveal_strlit("title,url,username,password,notes,category");
    let h = export_header();
    assert forall|i: int| 0 <= i < h.len() implies crate::csv_format::cell_text(#[trigger] h[i])
        == h[i] by {}
    let h5 = h.drop_last();
    let h4 = h5.drop_last();
    let h3 = h4.drop_last();
    let h2 = h3.drop_last();
    let h1 = h2.drop_last();
    assert(row_text(h1) == h[0]);
    assert(row_text(h2) == h[0] + seq![','] + h[1]);
    assert(row_text(h3) == row_text(h2) + seq![','] + h[2]);
    assert(row_text(h4) == row_text(h3) + seq![','] + h[3]);
    assert(row_text(h5) == row_text(h4) + seq![','] + h[4]);
    assert(row_text(h) == row_text(h5) + seq![','] + h[5]);
    assert(row_text(h) =~= "title,url,username,password,notes,category"@);
}

proof fn lemma_plain_heading(h: Seq<char>)
    requires
        h.len() > 0,
        forall|i: int| 0 <= i < h.len() ==> 'a' as int <= (#[trigger] h[i]) as int <= 'z' as int,
    ensures
        heading(h) == h,
{
    assert(!crate::text::white(h[0]));
    assert(!crate::text::white(h.last()));
    assert(trim_start(h) == h);
    assert(trimmed(h) == h);
    assert(vstd::utf8::is_ascii_chars(h));
    assert(lower(h) =~= h);
}

/// The columns of an exported table are found again, each where it was written.
pub proof fn law_export_header_is_recognized()
    ensures
        csv_format(export_header()) == Some(ImportFormat::KeyStashCsv),
        columns_error(ImportFormat::KeyStashCsv, export_header()) is None,
        column(export_header(), "title"@) == Some(0int),
        column(export_header(), "url"@) == Some(1int),
        column(export_header(), "username"@) == Some(2int),
        column(export_header(), "password"@) == Some(3int),
        column(export_header(), "notes"@) == Some(4int),
        column(export_header(), "category"@) == Some(5int),
{
    reveal_strlit("title");
    reveal_strlit("url");
    reveal_strlit("username");
    reveal_strlit("password");
    reveal_strlit("notes");
    reveal_strlit("category");
    let h = export_header();
    assert forall|i: int| 0 <= i < h.len() implies heading(#[trigger] h[i]) == h[i] by {
        lemma_plain_heading(h[i]);
    }
    let h1 = h.drop_first();
    let h2 = h1.drop_first();
    let h3 = h2.drop_first();
    let h4 = h3.drop_first();
    let h5 = h4.drop_first();
    assert(h1[0] == h[1] && h2[0] == h[2] && h3[0] == h[3] && h4[0] == h[4] && h5[0] == h[5]);
    assert("title"@.len() == 5 && "url"@.len() == 3 && "username"@.len() == 8);
    assert("password"@.len() == 8 && "notes"@.len() == 5 && "category"@.len() == 8);
    assert("title"@[0] != "notes"@[0]);
    assert("username"@[0] != "password"@[0]);
    assert("username"@[0] != "category"@[0]);
    assert("password"@[0] != "category"@[0]);
    lemma_column_at(h, "title"@);
    lemma_column_at(h, "url"@);
    lemma_column_at(h1, "url"@);
    lemma_column_at(h, "username"@);
    lemma_column_at(h1, "username"@);
    lemma_column_at(h2, "username"@);
    lemma_column_at(h, "password"@);
    lemma_column_at(h1, "password"@);
    lemma_column_at(h2, "password"@);
    lemma_column_at(h3, "password"@);
    lemma_column_at(h, "notes"@);
    lemma_column_at(h1, "notes"@);
    lemma_column_at(h2, "notes"@);
    lemma_column_at(h3, "notes"@);
    lemma_column_at(h4, "notes"@);
    lemma_column_at(h, "category"@);
    lemma_column_at(h1, "category"@);
    lemma_column_at(h2, "category"@);
    lemma_column_at(h3, "category"@);
    lemma_column_at(h4, "category"@);
    lemma_column_at(h5, "category"@);
    let w = wanted(ImportFormat::KeyStashCsv);
    assert(w =~= h);
    lemma_missing_none(w, h);
}

proof fn lemma_column_at(h: Seq<Seq<char>>, name: Seq<char>)
    requires
        h.len() > 0,
    ensures
        column(h, name) == (if heading(h[0]) == name {
            Some(0int)
        } else {
            match column(h.drop_first(), name) {
                Some(i) => Some(i + 1),
                None => None,
            }
        }),
{
}

proof fn lemma_missing_none(names: Seq<Seq<char>>, headers: Seq<Seq<char>>)
    requires
        forall|i: int| 0 <= i < names.len() ==> has_column(headers, #[trigger] names[i]),
    ensures
        first_missing(names, headers) is None,
    decreases names.len(),
{
    if names.len() > 0 {
        let d = names.drop_first();
        assert forall|i: int| 0 <= i < d.len() implies has_column(headers, #[trigger] d[i]) by {
            assert(d[i] == names[i + 1]);
        }
        assert(has_column(headers, names[0]));
        lemma_missing_none(d, headers);
    }
}

proof fn lemma_export_rows_shape(s: Seq<RecordView>, filter: Option<Seq<i64>>, key: Seq<u8>)
    ensures
        export_rows(s, filter, key).len() >= 1,
        export_rows(s, filter, key)[0] == export_header(),
        forall|i: int|
            0 <= i < export_rows(s, filter, key).len() ==> (#[trigger] export_rows(
                s,
                filter,
                key,
            )[i]).len() == 6,
        csv_text(export_rows(s, filter, key)).len() > 0,
        csv_text(export_rows(s, filter, key))[0] == 't',
    decreases s.len(),
{
    if s.len() == 0 {
        lemma_header_text();
        reveal_strlit("title,url,username,password,notes,category");
        let e = Seq::<Seq<Seq<char>>>::empty();
        assert(seq![export_header()].drop_last() =~= e);
        assert(csv_text(seq![export_header()]) =~= csv_text(e) + row_text(export_header())
            + seq!['\n']);
    } else {
        let d = s.drop_last();
        lemma_export_rows_shape(d, filter, key);
        let before = export_rows(d, filter, key);
        if chosen(s.last(), filter) {
            let cells = export_cells(s.last(), key);
            let now = before.push(cells);
            assert(now.drop_last() =~= before);
            assert(csv_text(now) == csv_text(before) + row_text(cells) + seq!['\n']);
        }
    }
}

/// What is exported can be imported: the table reads back as it was written, and is recognized
/// as an export of this program.
pub proof fn law_export_reads_back(s: Seq<RecordView>, filter: Option<Seq<i64>>, key: Seq<u8>)
    ensures
        reads_back(export_rows(s, filter, key)),
        export_rows(s, filter, key).len() > 0,
        csv_format(export_rows(s, filter, key)[0]) == Some(ImportFormat::KeyStashCsv),
{
    lemma_export_rows_shape(s, filter, key);
    law_export_header_is_recognized();
}

/// The credential that an exported record is imported as.
pub open spec fn exported_draft(s: RecordView, key: Seq<u8>) -> DraftView {
    DraftView {
        title: guarded(s.title),
        category: if s.category.len() == 0 {
            "Imported"@
        } else {
            guarded(s.category)
        },
        username: guarded(s.username),
        url: guarded(s.url),
        password: shown(s.password, key),
        notes: if shown_opt(s.notes, key).len() == 0 {
            None
        } else {
            Some(guarded(shown_opt(s.notes, key)))
        },
    }
}

/// A credential that is exported and imported keeps its password exactly; its other fields get
/// an apostrophe only where they would be taken for a formula.
pub proof fn law_exported_credentials_come_back(s: RecordView, c: Columns, key: Seq<u8>)
    requires
        are_columns(c, ImportFormat::KeyStashCsv, export_header()),
        s.title.len() > 0,
    ensures
        draft_of(ImportFormat::KeyStashCsv, c, export_cells(s, key)) == Some(
            exported_draft(s, key),
        ),
{
    law_export_header_is_recognized();
    let row = export_cells(s, key);
    assert(c.title == Some(0usize));
    assert(c.notes == Some(4usize));
    assert(c.category == Some(5usize));
    assert(c.url == 1 && c.username == 2 && c.password == 3);
    assert(row[0] == guarded(s.title));
    assert(row[5] == guarded(s.category));
}

proof fn lemma_all_exported(s: Seq<RecordView>, c: Columns, key: Seq<u8>)
    requires
        are_columns(c, ImportFormat::KeyStashCsv, export_header()),
        forall|i: int| 0 <= i < s.len() ==> (#[trigger] s[i]).title.len() > 0,
    ensures
        export_rows(s, None, key).len() == s.len() + 1,
        drafts_of(
            ImportFormat::KeyStashCsv,
            c,
            export_rows(s, None, key).drop_first(),
        ) == exported_drafts(s, key),
    decreases s.len(),
{
    let f = ImportFormat::KeyStashCsv;
    let rows = export_rows(s, None, key);
    if s.len() == 0 {
        assert(rows.drop_first() =~= Seq::empty());
        assert(exported_drafts(s, key) =~= Seq::empty());
    } else {
        let d = s.drop_last();
        assert forall|i: int| 0 <= i < d.len() implies (#[trigger] d[i]).title.len() > 0 by {
            assert(d[i] == s[i]);
        }
        lemma_all_exported(d, c, key);
        let before = export_rows(d, None, key);
        let cells = export_cells(s.last(), key);
        assert(rows == before.push(cells));
        assert(rows.drop_first().drop_last() =~= before.drop_first());
        assert(rows.drop_first().last() == cells);
        assert(s.last() == s[s.len() - 1]);
        law_exported_credentials_come_back(s.last(), c, key);
        assert(exported_drafts(s, key) =~= exported_drafts(d, key).push(
            exported_draft(s.last(), key),
        ));
    }
}

/// The credentials that exported records are imported as.
pub open spec fn exported_drafts(s: Seq<RecordView>, key: Seq<u8>) -> Seq<DraftView> {
    Seq::new(s.len(), |i: int| exported_draft(s[i], key))
}

/// What a user sees of records.
pub open spec fn plains(s: Seq<RecordView>, key: Seq<u8>) -> Seq<PlainView> {
    Seq::new(s.len(), |i: int| plain(s[i], key))
}

/// Whether a record has a title and a category, and nothing but its password begins as a formula
/// does.
pub open spec fn unguarded(s: RecordView, key: Seq<u8>) -> bool {
    &&& s.title.len() > 0
    &&& s.category.len() > 0
    &&& !looks_like_formula(s.title)
    &&& !looks_like_formula(s.category)
    &&& !looks_like_formula(s.username)
    &&& !looks_like_formula(s.url)
    &&& !looks_like_formula(shown_opt(s.notes, key))
}

/// Records in another order look the same to a user, each as often.
proof fn lemma_plains_in_any_order(s: Seq<RecordView>, t: Seq<RecordView>, key: Seq<u8>)
    requires
        s.to_multiset() == t.to_multiset(),
    ensures
        s.len() == t.len(),
        plains(s, key).to_multiset() == plains(t, key).to_multiset(),
    decreases s.len(),
{
    broadcast use vstd::seq_lib::group_to_multiset_ensures;

    assert(s.len() == s.to_multiset().len());
    assert(t.len() == t.to_multiset().len());
    if s.len() == 0 {
        assert(plains(s, key) =~= plains(t, key));
    } else {
        let x = s.last();
        let d = s.drop_last();
        assert(s[s.len() - 1] == x);
        assert(s.contains(x));
        assert(t.to_multiset().count(x) > 0);
        assert(t.contains(x));
        let j = choose|j: int| 0 <= j < t.len() && t[j] == x;
        let r = t.remove(j);
        assert(s =~= d.push(x));
        assert(s.to_multiset() == d.to_multiset().insert(x));
        assert(r.to_multiset() == t.to_multiset().remove(x));
        assert(d.to_multiset() =~= s.to_multiset().remove(x));
        lemma_plains_in_any_order(d, r, key);
        let p = plain(x, key);
        assert(plains(s, key) =~= plains(d, key).push(p));
        assert(plains(t, key)[j] == p);
        assert(plains(r, key) =~= plains(t, key).remove(j));
        assert(plains(t, key).to_multiset() =~= plains(r, key).to_multiset().insert(p));
    }
}

proof fn lemma_comes_back(n: RecordView, s: RecordView, key: Seq<u8>, now: Seq<char>)
    requires
        unguarded(s, key),
        record_holds(n, exported_draft(s, key), key, now),
    ensures
        plain(n, key) == plain(s, key),
{
    let password = shown(s.password, key);
    crate::crypto::lemma_text_round_trip(password);
    let notes = shown_opt(s.notes, key);
    if notes.len() == 0 {
        assert(notes =~= Seq::empty());
    } else {
        crate::crypto::lemma_text_round_trip(notes);
    }
}

/// A whole vault that is exported and imported into an empty one comes back: as many credentials,
/// and each looks as it did, a password that begins as a formula does too. Left out are records
/// without a title or a category, and other fields that would be taken for a formula. Where every
/// credential can be stored, the import fails only where two of the random identities are the
/// same, so never for one record.
pub proof fn law_exported_vault_comes_back(
    v: VaultView,
    s: Seq<RecordView>,
    data: Seq<u8>,
    t: Result<(Seq<Seq<char>>, Seq<Seq<Seq<char>>>), Seq<char>>,
    r: Result<usize, String>,
    before: VaultView,
    new: VaultView,
    key: Seq<u8>,
    now: Seq<char>,
)
    requires
        s.to_multiset() == v.secrets.to_multiset(),
        data == encode_utf8(csv_text(export_rows(s, None, key))),
        reading(data, t),
        before.secrets.len() == 0,
        took_over_table(r, before, new, t, ImportFormat::KeyStashCsv, key, now),
        forall|i: int| 0 <= i < s.len() ==> unguarded(#[trigger] s[i], key),
    ensures
        r matches Ok(n) ==> n == v.secrets.len() && plains(new.secrets, key).to_multiset()
            == plains(v.secrets, key).to_multiset(),
        r matches Err(e) ==> (all_storable(exported_drafts(s, key)) && before.next_id
            + v.secrets.len() <= i64::MAX ==> e@ == "UNIQUE constraint failed: secrets.sync_uuid"@
            && v.secrets.len() > 1 && exists|ids: Seq<Seq<char>>|
            ids.len() == s.len() && (forall|i: int|
                0 <= i < ids.len() ==> is_uuid_v4(#[trigger] ids[i])) && !(#[trigger] unused(
                ids,
                s.len() as int,
                before.secrets,
            ))),
{
    let rows = export_rows(s, None, key);
    let f = ImportFormat::KeyStashCsv;
    law_export_reads_back(s, None, key);
    law_export_header_is_recognized();
    lemma_export_rows_shape(s, None, key);
    assert(t matches Ok(p) && p.0 == rows[0] && p.1 == rows.drop_first());
    lemma_plains_in_any_order(s, v.secrets, key);
    let c = choose|c: Columns| #[trigger]
        are_columns(c, f, export_header()) && added_all(
            r,
            before,
            new,
            drafts_of(f, c, rows.drop_first()),
            key,
            now,
        );
    assert forall|i: int| 0 <= i < s.len() implies (#[trigger] s[i]).title.len() > 0 by {
        assert(unguarded(s[i], key));
    }
    lemma_all_exported(s, c, key);
    let d = exported_drafts(s, key);
    assert(added_all(r, before, new, d, key, now));
    if r is Ok {
        assert forall|i: int| 0 <= i < s.len() implies plain(#[trigger] new.secrets[i], key)
            == plain(s[i], key) by {
            assert(record_holds(new.secrets[before.secrets.len() + i], d[i], key, now));
            lemma_comes_back(new.secrets[i], s[i], key, now);
        }
        assert(plains(new.secrets, key) =~= plains(s, key));
    } else if all_storable(d) && before.next_id + d.len() <= i64::MAX {
        let e = r->Err_0@;
        let ids = choose|ids: Seq<Seq<char>>|
            ids.len() == d.len() && (forall|i: int|
                0 <= i < ids.len() ==> is_uuid_v4(#[trigger] ids[i])) && #[trigger] import_trouble(
                before,
                d,
                ids,
                d.len() as int,
            ) == Some(e);
        assert(d.take(d.len() as int) =~= d);
        lemma_import_trouble(before, d, ids, d.len() as int);
        assert(!unused(ids, s.len() as int, before.secrets));
        lemma_trouble_fails(before, d, ids, d.len() as int);
        let i = choose|i: int| fails_at(before, d, i, e);
        assert(storable(d[i].password, d[i].notes));
    }
}

/// An exported vault is imported, into whatever vault: its table reads back and its columns are
/// found, every record in it becomes a credential to add, and under unused identities, with ids
/// enough and texts of a size that encryption takes, nothing keeps any of them from being added.
pub proof fn law_exported_vault_is_accepted(
    s: Seq<RecordView>,
    data: Seq<u8>,
    t: Result<(Seq<Seq<char>>, Seq<Seq<Seq<char>>>), Seq<char>>,
    ids: Seq<Seq<char>>,
    before: VaultView,
    key: Seq<u8>,
)
    requires
        data == encode_utf8(csv_text(export_rows(s, None, key))),
        reading(data, t),
        forall|i: int| 0 <= i < s.len() ==> (#[trigger] s[i]).title.len() > 0,
        all_storable(exported_drafts(s, key)),
        before.next_id + s.len() <= i64::MAX,
        ids.len() >= s.len(),
        unused(ids, s.len() as int, before.secrets),
    ensures
        t is Ok,
        columns_error(ImportFormat::KeyStashCsv, t->Ok_0.0) is None,
        forall|c: Columns| #[trigger]
            are_columns(c, ImportFormat::KeyStashCsv, t->Ok_0.0) ==> drafts_of(
                ImportFormat::KeyStashCsv,
                c,
                t->Ok_0.1,
            ) == exported_drafts(s, key),
        import_trouble(before, exported_drafts(s, key), ids, s.len() as int) is None,
{
    let rows = export_rows(s, None, key);
    let d = exported_drafts(s, key);
    law_export_reads_back(s, None, key);
    law_export_header_is_recognized();
    lemma_export_rows_shape(s, None, key);
    assert(t matches Ok(p) && p.0 == rows[0] && p.1 == rows.drop_first());
    assert forall|c: Columns| #[trigger]
        are_columns(c, ImportFormat::KeyStashCsv, t->Ok_0.0) implies drafts_of(
        ImportFormat::KeyStashCsv,
        c,
        t->Ok_0.1,
    ) == d by {
        lemma_all_exported(s, c, key);
    }
    assert(d.take(d.len() as int) =~= d);
    lemma_import_trouble(before, d, ids, s.len() as int);
}

} // verus!
