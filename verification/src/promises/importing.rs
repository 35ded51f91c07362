//! Credentials that come from other managers' exports, and that go out in this one's.
use vstd::prelude::*;
use vstd::utf8::*;

use crate::crypto::opened;
use crate::csv_format::{
    csv_text, escape_csv_cell, escape_csv_cell_password, escape_csv_quoting, guard_cell, table_of,
    write_row,
};
use crate::db::identity::is_uuid_v4;
use crate::db::records::{records, RecordView, Vault, VaultView};
use crate::import::{
    added_all, are_columns, bw_draft, bw_drafts, classify, column, detect_csv_format, domain_of,
    draft_of, drafts_of, export_cells, export_rows, export_vault_csv, extract_domain, find_columns,
    folder_name, folders_of, import_bitwarden_json, import_brave_chrome_csv, import_csv,
    import_drafts_with, import_firefox_csv, import_keepassxc_csv, import_keystash_csv,
    import_lastpass_csv, import_onepassword_csv, items_of, make_draft, reading, stripped,
    took_over_table, BwExport, BwFolder, BwItem, Columns, Draft, DraftView, ImportFormat,
};
use crate::promises::records::{else_untouched, reads};
use crate::text::{first_at, has_prefix, lower, occurs, texts, trimmed};

verus! {

/// Whether a column is the first with a heading, white space and case aside.
pub open spec fn headed_by(h: Seq<Seq<char>>, k: int, name: Seq<char>) -> bool {
    &&& 0 <= k < h.len()
    &&& lower(trimmed(h[k])) == name
    &&& forall|j: int| 0 <= j < k ==> lower(trimmed(#[trigger] h[j])) != name
}

/// Whether no column has a heading.
pub open spec fn unheaded(h: Seq<Seq<char>>, name: Seq<char>) -> bool {
    forall|j: int| 0 <= j < h.len() ==> lower(trimmed(#[trigger] h[j])) != name
}

/// A column that is found is the first with its heading.
pub proof fn lemma_column(h: Seq<Seq<char>>, name: Seq<char>)
    ensures
        column(h, name) matches Some(k) ==> headed_by(h, k, name),
        column(h, name) is None ==> unheaded(h, name),
    decreases h.len(),
{
    if h.len() > 0 && lower(trimmed(h[0])) != name {
        let d = h.drop_first();
        lemma_column(d, name);
        if column(d, name) is Some {
            let k = column(h, name)->0;
            assert(d[k - 1] == h[k]);
            assert forall|j: int| 0 <= j < k implies lower(trimmed(#[trigger] h[j])) != name by {
                if j > 0 {
                    assert(d[j - 1] == h[j]);
                }
            }
        } else {
            assert forall|j: int| 0 <= j < h.len() implies lower(trimmed(#[trigger] h[j])) != name by {
                if j > 0 {
                    assert(d[j - 1] == h[j]);
                }
            }
        }
    }
}

/// Which columns of a table hold what, by format.
pub open spec fn proper_columns(f: ImportFormat, h: Seq<Seq<char>>, c: Columns) -> bool {
    &&& headed_by(h, c.username as int, "username"@)
    &&& headed_by(h, c.password as int, "password"@)
    &&& if f == ImportFormat::OnePasswordCsv && unheaded(h, "url"@) {
        headed_by(h, c.url as int, "website"@)
    } else {
        headed_by(h, c.url as int, "url"@)
    }
    &&& match f {
        ImportFormat::FirefoxCsv => c.title is None && c.notes is None && c.category is None,
        ImportFormat::BraveChromeCsv => c.notes is None && c.category is None && (c.title matches Some(t)
            && headed_by(h, t as int, "name"@)),
        ImportFormat::LastPassCsv => {
            &&& c.title matches Some(t) && headed_by(h, t as int, "name"@)
            &&& c.notes matches Some(n) && headed_by(h, n as int, "extra"@)
            &&& c.category matches Some(g) && headed_by(h, g as int, "grouping"@)
        },
        ImportFormat::KeePassXcCsv => {
            &&& c.title matches Some(t) && headed_by(h, t as int, "title"@)
            &&& c.notes matches Some(n) && headed_by(h, n as int, "notes"@)
            &&& c.category matches Some(g) && headed_by(h, g as int, "group"@)
        },
        ImportFormat::OnePasswordCsv => {
            &&& c.title matches Some(t) && headed_by(h, t as int, "title"@)
            &&& match c.notes {
                Some(n) => headed_by(h, n as int, "notes"@),
                None => unheaded(h, "notes"@),
            }
            &&& c.category is None
        },
        ImportFormat::KeyStashCsv => {
            &&& c.title matches Some(t) && headed_by(h, t as int, "title"@)
            &&& c.notes matches Some(n) && headed_by(h, n as int, "notes"@)
            &&& c.category matches Some(g) && headed_by(h, g as int, "category"@)
        },
        ImportFormat::BitwardenJson => true,
    }
}

proof fn lemma_proper(f: ImportFormat, h: Seq<Seq<char>>, c: Columns)
    requires
        f != ImportFormat::BitwardenJson,
        are_columns(c, f, h),
        crate::import::columns_error(f, h) is None,
    ensures
        proper_columns(f, h, c),
{
    lemma_column(h, "username"@);
    lemma_column(h, "password"@);
    lemma_column(h, "url"@);
    lemma_column(h, "website"@);
    lemma_column(h, "name"@);
    lemma_column(h, "title"@);
    lemma_column(h, "notes"@);
    lemma_column(h, "extra"@);
    lemma_column(h, "grouping"@);
    lemma_column(h, "group"@);
    lemma_column(h, "category"@);
    lemma_none_missing(crate::import::wanted(f), h);
    let w = crate::import::wanted(f);
    match f {
        ImportFormat::BraveChromeCsv => {
            assert(w[0] == "name"@);
        },
        ImportFormat::LastPassCsv => {
            assert(w[0] == "name"@ && w[4] == "extra"@ && w[5] == "grouping"@);
        },
        ImportFormat::KeePassXcCsv => {
            assert(w[0] == "group"@ && w[1] == "title"@ && w[5] == "notes"@);
        },
        ImportFormat::OnePasswordCsv => {
            assert(w[0] == "title"@);
        },
        ImportFormat::KeyStashCsv => {
            assert(w[0] == "title"@ && w[4] == "notes"@ && w[5] == "category"@);
        },
        _ => {},
    }
    if column(h, "url"@) is Some {
        let k = column(h, "url"@)->0;
        assert(lower(trimmed(h[k])) == "url"@);
        assert(!unheaded(h, "url"@));
    }
}

proof fn lemma_none_missing(names: Seq<Seq<char>>, h: Seq<Seq<char>>)
    requires
        crate::import::first_missing(names, h) is None,
    ensures
        forall|i: int| 0 <= i < names.len() ==> column(h, #[trigger] names[i]) is Some,
    decreases names.len(),
{
    if names.len() > 0 {
        let d = names.drop_first();
        lemma_none_missing(d, h);
        assert forall|i: int| 0 <= i < names.len() implies column(h, #[trigger] names[i]) is Some by {
            if i > 0 {
                assert(d[i - 1] == names[i]);
            }
        }
    }
}

/// In every format the username is what stands under `username` and the password what stands
/// under `password`; titles, addresses, notes and tags come from the columns that the format has
/// for them.
pub proof fn law_columns_go_by_their_headings(
    f: ImportFormat,
    headers: &Vec<String>,
    r: Result<Columns, String>,
)
    requires
        f != ImportFormat::BitwardenJson,
        call_ensures(find_columns, (f, headers), r),
        r is Ok,
    ensures
        proper_columns(f, texts(headers@), r->Ok_0),
{
    lemma_proper(f, texts(headers@), r->Ok_0);
}

/// Whether every column that is wanted is there.
pub open spec fn has_cells(c: Columns, row: Seq<Seq<char>>) -> bool {
    c.username < row.len() && c.password < row.len() && c.url < row.len() && (c.title matches Some(t)
        ==> t < row.len()) && (c.notes matches Some(n) ==> n < row.len()) && (c.category matches Some(g)
        ==> g < row.len())
}

/// The tags of what has none.
pub open spec fn usual_tag(f: ImportFormat) -> Seq<char> {
    match f {
        ImportFormat::BraveChromeCsv | ImportFormat::FirefoxCsv => "Browser"@,
        ImportFormat::LastPassCsv => "LastPass"@,
        ImportFormat::KeePassXcCsv => "KeePassXC"@,
        ImportFormat::OnePasswordCsv => "1Password"@,
        ImportFormat::KeyStashCsv | ImportFormat::BitwardenJson => "Imported"@,
    }
}

/// Whether a credential holds what the cells of a row do.
pub open spec fn from_cells(f: ImportFormat, c: Columns, row: Seq<Seq<char>>, d: DraftView) -> bool {
    &&& d.username == row[c.username as int]
    &&& d.password == row[c.password as int]
    &&& d.url == row[c.url as int]
    &&& c.title matches Some(t) ==> d.title == (if row[t as int].len() > 0 {
        row[t as int]
    } else {
        row[c.url as int]
    })
    &&& c.title is None ==> d.title == domain_of(row[c.url as int])
    &&& d.category == (if c.category is Some && row[c.category->0 as int].len() > 0 {
        row[c.category->0 as int]
    } else {
        usual_tag(f)
    })
    &&& d.notes == (if c.notes is Some && row[c.notes->0 as int].len() > 0 {
        Some(row[c.notes->0 as int])
    } else {
        None
    })
}

/// Whether a row holds a credential: its cells are there, and it has a name or a password.
pub open spec fn is_credential(c: Columns, row: Seq<Seq<char>>) -> bool {
    has_cells(c, row) && (row[c.password as int].len() > 0 || (match c.title {
        Some(t) => row[t as int].len() > 0,
        None => row[c.url as int].len() > 0,
    }))
}

proof fn lemma_draft(f: ImportFormat, c: Columns, row: Seq<Seq<char>>)
    ensures
        draft_of(f, c, row) is Some <==> is_credential(c, row),
        draft_of(f, c, row) matches Some(d) ==> from_cells(f, c, row, d),
{
}

/// A row becomes a credential exactly where it holds one, each of whose fields is the cell of
/// its column, with a title from the address and a usual tag where these are empty.
pub proof fn law_rows_become_credentials(
    f: ImportFormat,
    c: &Columns,
    row: &Vec<String>,
    r: Option<Draft>,
)
    requires
        call_ensures(make_draft, (f, c, row), r),
    ensures
        r is Some <==> is_credential(*c, texts(row@)),
        r matches Some(d) ==> from_cells(f, *c, texts(row@), d@),
{
    lemma_draft(f, *c, texts(row@));
}

/// Whether a record of the vault holds a credential under a key.
pub open spec fn stored(n: RecordView, d: DraftView, key: Seq<u8>, now: Seq<char>) -> bool {
    &&& n.title == d.title
    &&& n.category == d.category
    &&& n.username == d.username
    &&& n.url == d.url
    &&& reads(n.password, key, d.password)
    &&& match d.notes {
        Some(t) => if t.len() > 0 {
            n.notes matches Some(x) && reads(x, key, t)
        } else {
            n.notes is None
        },
        None => n.notes is None,
    }
    &&& n.updated_at == now
    &&& is_uuid_v4(n.uuid)
}

/// Whether a credential is that of one of the rows.
pub open spec fn of_some_row(f: ImportFormat, c: Columns, rows: Seq<Seq<Seq<char>>>, d: DraftView) -> bool {
    exists|i: int|
        0 <= i < rows.len() && is_credential(c, #[trigger] rows[i]) && draft_of(f, c, rows[i]) == Some(
            d,
        )
}

proof fn lemma_drafts(f: ImportFormat, c: Columns, rows: Seq<Seq<Seq<char>>>)
    ensures
        drafts_of(f, c, rows).len() <= rows.len(),
        forall|i: int|
            0 <= i < rows.len() && is_credential(c, #[trigger] rows[i]) ==> drafts_of(f, c, rows).contains(
                draft_of(f, c, rows[i])->0,
            ),
        forall|k: int|
            0 <= k < drafts_of(f, c, rows).len() ==> of_some_row(
                f,
                c,
                rows,
                #[trigger] drafts_of(f, c, rows)[k],
            ),
    decreases rows.len(),
{
    if rows.len() > 0 {
        let e = rows.drop_last();
        let a = drafts_of(f, c, e);
        let b = drafts_of(f, c, rows);
        lemma_drafts(f, c, e);
        lemma_draft(f, c, rows.last());
        let n = rows.len() - 1;
        assert forall|i: int| 0 <= i < rows.len() && is_credential(c, #[trigger] rows[i]) implies b.contains(
            draft_of(f, c, rows[i])->0,
        ) by {
            if i < n {
                assert(e[i] == rows[i]);
                let k = choose|k: int| 0 <= k < a.len() && a[k] == draft_of(f, c, rows[i])->0;
                assert(b[k] == a[k]);
            } else {
                assert(b[b.len() - 1] == draft_of(f, c, rows[i])->0);
            }
        }
        assert forall|k: int| 0 <= k < b.len() implies of_some_row(f, c, rows, #[trigger] b[k]) by {
            if k < a.len() {
                assert(b[k] == a[k]);
                assert(of_some_row(f, c, e, a[k]));
                let i = choose|i: int|
                    0 <= i < e.len() && is_credential(c, #[trigger] e[i]) && draft_of(f, c, e[i]) == Some(
                        a[k],
                    );
                assert(rows[i] == e[i]);
            } else {
                assert(rows[n] == rows.last());
                assert(is_credential(c, rows[n]));
            }
        }
    }
}

proof fn lemma_full_drafts(f: ImportFormat, c: Columns, rows: Seq<Seq<Seq<char>>>)
    requires
        forall|i: int| 0 <= i < rows.len() ==> is_credential(c, #[trigger] rows[i]),
    ensures
        drafts_of(f, c, rows).len() == rows.len(),
        forall|i: int|
            0 <= i < rows.len() ==> Some(#[trigger] drafts_of(f, c, rows)[i]) == draft_of(f, c, rows[i]),
    decreases rows.len(),
{
    if rows.len() > 0 {
        let e = rows.drop_last();
        let n = rows.len() - 1;
        assert forall|i: int| 0 <= i < e.len() implies is_credential(c, #[trigger] e[i]) by {
            assert(e[i] == rows[i]);
        }
        lemma_full_drafts(f, c, e);
        assert(is_credential(c, rows[n]));
        lemma_draft(f, c, rows[n]);
        assert forall|i: int| 0 <= i < rows.len() implies Some(#[trigger] drafts_of(f, c, rows)[i])
            == draft_of(f, c, rows[i]) by {
            if i < n {
                assert(drafts_of(f, c, rows)[i] == drafts_of(f, c, e)[i]);
                assert(e[i] == rows[i]);
            }
        }
    }
}

/// Whether a call of one of the importers of tables came to an end.
pub open spec fn imported(
    vault: &mut Vault,
    data: &[u8],
    f: ImportFormat,
    key: &[u8; 32],
    now: &str,
    r: Result<usize, String>,
) -> bool {
    ||| call_ensures(import_csv, (vault, data, f, key, now), r)
    ||| f == ImportFormat::BraveChromeCsv && call_ensures(
        import_brave_chrome_csv,
        (vault, data, key, now),
        r,
    )
    ||| f == ImportFormat::FirefoxCsv && call_ensures(import_firefox_csv, (vault, data, key, now), r)
    ||| f == ImportFormat::LastPassCsv && call_ensures(import_lastpass_csv, (vault, data, key, now), r)
    ||| f == ImportFormat::KeePassXcCsv && call_ensures(
        import_keepassxc_csv,
        (vault, data, key, now),
        r,
    )
    ||| f == ImportFormat::OnePasswordCsv && call_ensures(
        import_onepassword_csv,
        (vault, data, key, now),
        r,
    )
    ||| f == ImportFormat::KeyStashCsv && call_ensures(import_keystash_csv, (vault, data, key, now), r)
}

/// Whether a record holds what a row does.
pub open spec fn holds_row(
    n: RecordView,
    f: ImportFormat,
    c: Columns,
    row: Seq<Seq<char>>,
    key: Seq<u8>,
    now: Seq<char>,
) -> bool {
    exists|d: DraftView| #[trigger] from_cells(f, c, row, d) && stored(n, d, key, now)
}

/// Whether one of the records from `n` on holds what a row does.
pub open spec fn row_is_in(
    v: VaultView,
    n: int,
    f: ImportFormat,
    c: Columns,
    row: Seq<Seq<char>>,
    key: Seq<u8>,
    now: Seq<char>,
) -> bool {
    exists|k: int|
        n <= k < v.secrets.len() && holds_row(#[trigger] v.secrets[k], f, c, row, key, now)
}

/// Whether a record holds what one of the rows does.
pub open spec fn is_of_row(
    s: RecordView,
    f: ImportFormat,
    c: Columns,
    rows: Seq<Seq<Seq<char>>>,
    key: Seq<u8>,
    now: Seq<char>,
) -> bool {
    exists|i: int|
        0 <= i < rows.len() && is_credential(c, #[trigger] rows[i]) && holds_row(
            s,
            f,
            c,
            rows[i],
            key,
            now,
        )
}

/// Whether the records from `n` on are those of the rows: of each that holds a credential, in
/// the order of the rows where all do, and of nothing else.
pub open spec fn takes_rows(
    v: VaultView,
    n: int,
    f: ImportFormat,
    c: Columns,
    rows: Seq<Seq<Seq<char>>>,
    key: Seq<u8>,
    now: Seq<char>,
) -> bool {
    &&& forall|i: int|
        0 <= i < rows.len() && is_credential(c, #[trigger] rows[i]) ==> row_is_in(
            v,
            n,
            f,
            c,
            rows[i],
            key,
            now,
        )
    &&& forall|k: int|
        n <= k < v.secrets.len() ==> is_of_row(#[trigger] v.secrets[k], f, c, rows, key, now)
    &&& (forall|i: int| 0 <= i < rows.len() ==> is_credential(c, #[trigger] rows[i]))
        ==> v.secrets.len() == n + rows.len() && forall|i: int|
        0 <= i < rows.len() ==> holds_row(v.secrets[n + i], f, c, #[trigger] rows[i], key, now)
}

/// Whether the records from `n` on hold the given credentials, one each.
spec fn all_stored(v: VaultView, n: int, d: Seq<DraftView>, key: Seq<u8>, now: Seq<char>) -> bool {
    v.secrets.len() == n + d.len() && forall|k: int|
        0 <= k < d.len() ==> stored(#[trigger] v.secrets[n + k], d[k], key, now)
}

proof fn lemma_all_stored(
    r: Result<usize, String>,
    before: VaultView,
    new: VaultView,
    d: Seq<DraftView>,
    key: Seq<u8>,
    now: Seq<char>,
)
    requires
        r is Ok,
        added_all(r, before, new, d, key, now),
    ensures
        new.secrets.len() == before.secrets.len() + r->Ok_0,
        new.secrets.take(before.secrets.len() as int) == before.secrets,
        else_untouched(new, before),
        all_stored(new, before.secrets.len() as int, d, key, now),
{
    let n = before.secrets.len() as int;
    assert forall|k: int| 0 <= k < d.len() implies stored(#[trigger] new.secrets[n + k], d[k], key, now) by {
        assert(crate::import::record_holds(new.secrets[n + k], d[k], key, now));
    }
}

proof fn lemma_holds_row(
    v: VaultView,
    n: int,
    f: ImportFormat,
    c: Columns,
    row: Seq<Seq<char>>,
    d: Seq<DraftView>,
    k: int,
    key: Seq<u8>,
    now: Seq<char>,
)
    requires
        all_stored(v, n, d, key, now),
        0 <= n,
        0 <= k < d.len(),
        draft_of(f, c, row) == Some(d[k]),
    ensures
        holds_row(v.secrets[n + k], f, c, row, key, now),
        is_credential(c, row),
        row_is_in(v, n, f, c, row, key, now),
{
    lemma_draft(f, c, row);
    assert(stored(v.secrets[n + k], d[k], key, now));
    assert(from_cells(f, c, row, d[k]));
}

#[verifier::rlimit(40)]
proof fn lemma_takes_rows(
    v: VaultView,
    n: int,
    f: ImportFormat,
    c: Columns,
    rows: Seq<Seq<Seq<char>>>,
    key: Seq<u8>,
    now: Seq<char>,
)
    requires
        0 <= n,
        all_stored(v, n, drafts_of(f, c, rows), key, now),
    ensures
        takes_rows(v, n, f, c, rows, key, now),
{
    let d = drafts_of(f, c, rows);
    lemma_drafts(f, c, rows);
    assert forall|i: int| 0 <= i < rows.len() && is_credential(c, #[trigger] rows[i]) implies row_is_in(
        v,
        n,
        f,
        c,
        rows[i],
        key,
        now,
    ) by {
        lemma_draft(f, c, rows[i]);
        let x = draft_of(f, c, rows[i])->0;
        let k = choose|k: int| 0 <= k < d.len() && d[k] == x;
        lemma_holds_row(v, n, f, c, rows[i], d, k, key, now);
    }
    assert forall|k: int| n <= k < v.secrets.len() implies is_of_row(
        #[trigger] v.secrets[k],
        f,
        c,
        rows,
        key,
        now,
    ) by {
        let x = d[k - n];
        assert(of_some_row(f, c, rows, x));
        let i = choose|i: int|
            0 <= i < rows.len() && is_credential(c, #[trigger] rows[i]) && draft_of(f, c, rows[i])
                == Some(x);
        lemma_holds_row(v, n, f, c, rows[i], d, k - n, key, now);
    }
    if forall|i: int| 0 <= i < rows.len() ==> is_credential(c, #[trigger] rows[i]) {
        lemma_rows_in_order(v, n, f, c, rows, key, now);
    }
}

proof fn lemma_rows_in_order(
    v: VaultView,
    n: int,
    f: ImportFormat,
    c: Columns,
    rows: Seq<Seq<Seq<char>>>,
    key: Seq<u8>,
    now: Seq<char>,
)
    requires
        0 <= n,
        all_stored(v, n, drafts_of(f, c, rows), key, now),
        forall|i: int| 0 <= i < rows.len() ==> is_credential(c, #[trigger] rows[i]),
    ensures
        v.secrets.len() == n + rows.len(),
        forall|i: int|
            0 <= i < rows.len() ==> holds_row(v.secrets[n + i], f, c, #[trigger] rows[i], key, now),
{
    let d = drafts_of(f, c, rows);
    lemma_full_drafts(f, c, rows);
    assert forall|i: int| 0 <= i < rows.len() implies holds_row(
        v.secrets[n + i],
        f,
        c,
        #[trigger] rows[i],
        key,
        now,
    ) by {
        assert(Some(d[i]) == draft_of(f, c, rows[i]));
        lemma_holds_row(v, n, f, c, rows[i], d, i, key, now);
    }
}

#[verifier::rlimit(40)]
proof fn lemma_imported(
    vault: &mut Vault,
    data: &[u8],
    f: ImportFormat,
    key: &[u8; 32],
    now: &str,
    r: Result<usize, String>,
)
    requires
        imported(vault, data, f, key, now, r),
    ensures
        took_over_table(r, old(vault)@, final(vault)@, table_of(data@), f, key@, now@),
{
    let t = choose|t: Result<(Seq<Seq<char>>, Seq<Seq<Seq<char>>>), Seq<char>>|
        #[trigger] reading(data@, t) && took_over_table(
            r,
            old(vault)@,
            final(vault)@,
            t,
            f,
            key@,
            now@,
        );
    assert(t == table_of(data@));
}

/// An import of a table puts every credential of it into the vault: for each row that holds one
/// there is a new record with the row's username, password, address, title, tags and notes, and
/// every new record comes from a row. What was there stays; an import that fails leaves the vault
/// alone.
#[verifier::rlimit(40)]
pub proof fn law_import_takes_every_row(
    vault: &mut Vault,
    data: &[u8],
    f: ImportFormat,
    key: &[u8; 32],
    now: &str,
    r: Result<usize, String>,
    h: Seq<Seq<char>>,
    rows: Seq<Seq<Seq<char>>>,
)
    requires
        f != ImportFormat::BitwardenJson,
        imported(vault, data, f, key, now, r),
        table_of(data@) == Ok::<(Seq<Seq<char>>, Seq<Seq<Seq<char>>>), Seq<char>>((h, rows)),
    ensures
        r is Err ==> final(vault)@ == old(vault)@,
        r is Ok ==> {
            let n = old(vault)@.secrets.len() as int;
            &&& final(vault)@.secrets.len() == n + r->Ok_0
            &&& final(vault)@.secrets.take(n) == old(vault)@.secrets
            &&& else_untouched(final(vault)@, old(vault)@)
            &&& exists|c: Columns| #[trigger]
                proper_columns(f, h, c) && takes_rows(final(vault)@, n, f, c, rows, key@, now@)
        },
{
    lemma_imported(vault, data, f, key, now, r);
    if r is Ok {
        let c = choose|c: Columns|
            #[trigger] are_columns(c, f, h) && added_all(
                r,
                old(vault)@,
                final(vault)@,
                drafts_of(f, c, rows),
                key@,
                now@,
            );
        lemma_proper(f, h, c);
        lemma_all_stored(r, old(vault)@, final(vault)@, drafts_of(f, c, rows), key@, now@);
        lemma_takes_rows(
            final(vault)@,
            old(vault)@.secrets.len() as int,
            f,
            c,
            rows,
            key@,
            now@,
        );
    }
}

proof fn lemma_four_columns(h: Seq<Seq<char>>, c: Columns)
    requires
        h.len() == 4,
        lower(trimmed(h[0])) == "title"@,
        lower(trimmed(h[1])) == "username"@,
        lower(trimmed(h[2])) == "password"@,
        lower(trimmed(h[3])) == "url"@,
        proper_columns(ImportFormat::OnePasswordCsv, h, c),
    ensures
        c.username == 1,
        c.password == 2,
        c.title == Some(0usize),
        c.url == 3,
        c.notes is None,
        c.category is None,
{
    reveal_strlit("title");
    reveal_strlit("username");
    reveal_strlit("password");
    reveal_strlit("url");
    reveal_strlit("notes");
    assert("title"@[0] != "username"@[0] && "title"@[0] != "password"@[0] && "title"@[0] != "url"@[0]);
    assert("username"@[0] != "password"@[0] && "username"@[1] != "url"@[1] && "password"@[0]
        != "url"@[0]);
    assert("notes"@[0] != "title"@[0] && "notes"@[0] != "username"@[0] && "notes"@[0]
        != "password"@[0] && "notes"@[0] != "url"@[0]);
    assert(!unheaded(h, "url"@)) by {
        assert(lower(trimmed(h[3])) == "url"@);
    }
}

/// A table with the columns title, username, password and url comes in as it reads: the record
/// of a row shows the row's title, username, password and address, each in its field.
#[verifier::rlimit(40)]
pub proof fn law_plain_table_comes_in_as_it_reads(
    vault: &mut Vault,
    data: &[u8],
    key: &[u8; 32],
    now: &str,
    n: usize,
    h: Seq<Seq<char>>,
    rows: Seq<Seq<Seq<char>>>,
    i: int,
)
    requires
        call_ensures(import_onepassword_csv, (vault, data, key, now), Ok(n)),
        table_of(data@) == Ok::<(Seq<Seq<char>>, Seq<Seq<Seq<char>>>), Seq<char>>((h, rows)),
        h.len() == 4,
        lower(trimmed(h[0])) == "title"@,
        lower(trimmed(h[1])) == "username"@,
        lower(trimmed(h[2])) == "password"@,
        lower(trimmed(h[3])) == "url"@,
        forall|j: int| 0 <= j < rows.len() ==> (#[trigger] rows[j]).len() == 4 && rows[j][0].len() > 0,
        0 <= i < rows.len(),
    ensures
        n == rows.len(),
        ({
            let s = final(vault)@.secrets[old(vault)@.secrets.len() + i];
            &&& s.title == rows[i][0]
            &&& s.username == rows[i][1]
            &&& reads(s.password, key@, rows[i][2])
            &&& s.url == rows[i][3]
            &&& s.notes is None
            &&& s.category == "1Password"@
        }),
{
    let f = ImportFormat::OnePasswordCsv;
    assert(imported(vault, data, f, key, now, Ok(n)));
    law_import_takes_every_row(vault, data, f, key, now, Ok(n), h, rows);
    let c = choose|c: Columns| #[trigger]
        proper_columns(f, h, c) && takes_rows(
            final(vault)@,
            old(vault)@.secrets.len() as int,
            f,
            c,
            rows,
            key@,
            now@,
        );
    lemma_plain_row(final(vault)@, old(vault)@.secrets.len() as int, h, c, rows, key@, now@, i);
}

#[verifier::rlimit(40)]
proof fn lemma_plain_row(
    v: VaultView,
    n: int,
    h: Seq<Seq<char>>,
    c: Columns,
    rows: Seq<Seq<Seq<char>>>,
    key: Seq<u8>,
    now: Seq<char>,
    i: int,
)
    requires
        proper_columns(ImportFormat::OnePasswordCsv, h, c),
        takes_rows(v, n, ImportFormat::OnePasswordCsv, c, rows, key, now),
        h.len() == 4,
        lower(trimmed(h[0])) == "title"@,
        lower(trimmed(h[1])) == "username"@,
        lower(trimmed(h[2])) == "password"@,
        lower(trimmed(h[3])) == "url"@,
        forall|j: int| 0 <= j < rows.len() ==> (#[trigger] rows[j]).len() == 4 && rows[j][0].len() > 0,
        0 <= i < rows.len(),
    ensures
        v.secrets.len() == n + rows.len(),
        v.secrets[n + i].title == rows[i][0],
        v.secrets[n + i].username == rows[i][1],
        reads(v.secrets[n + i].password, key, rows[i][2]),
        v.secrets[n + i].url == rows[i][3],
        v.secrets[n + i].notes is None,
        v.secrets[n + i].category == "1Password"@,
{
    let f = ImportFormat::OnePasswordCsv;
    lemma_four_columns(h, c);
    assert forall|j: int| 0 <= j < rows.len() implies is_credential(c, #[trigger] rows[j]) by {
        assert(rows[j].len() == 4 && rows[j][0].len() > 0);
    }
    let s = v.secrets[n + i];
    assert(holds_row(s, f, c, rows[i], key, now));
    let d = choose|d: DraftView| #[trigger] from_cells(f, c, rows[i], d) && stored(s, d, key, now);
    assert(d.notes is None);
}

/// The host of an address: without the scheme, a leading `www.` and what follows the host.
pub proof fn law_host_is_extracted(url: &str, r: String, host: Seq<char>, rest: Seq<char>)
    requires
        call_ensures(extract_domain, (url,), r),
        host.len() > 0,
        !host.contains('/'),
        !has_prefix(host + rest, "https://"@),
        !has_prefix(host + rest, "http://"@),
        !has_prefix(host + rest, "www."@),
        rest.len() == 0 || rest[0] == '/',
    ensures
        url@ == "https://"@ + host + rest ==> r@ == host,
        url@ == "http://"@ + host + rest ==> r@ == host,
        url@ == "https://"@ + ("www."@ + host + rest) ==> r@ == host,
        url@ == "http://"@ + ("www."@ + host + rest) ==> r@ == host,
        url@ == "www."@ + host + rest ==> r@ == host,
        url@ == host + rest ==> r@ == host,
        r@ == domain_of(url@),
        url@.len() == 0 ==> r@ == "Browser Login"@,
{
    reveal_strlit("https://");
    reveal_strlit("http://");
    reveal_strlit("www.");
    let t = host + rest;
    let w = "www."@ + t;
    assert("www."@ + host + rest =~= w);
    assert("https://"@ + host + rest =~= "https://"@ + t);
    assert("http://"@ + host + rest =~= "http://"@ + t);
    assert(!has_prefix(w, "https://"@)) by {
        assert(w[0] == 'w');
        if has_prefix(w, "https://"@) {
            assert(w.take(8)[0] == "https://"@[0]);
        }
    }
    assert(!has_prefix(w, "http://"@)) by {
        assert(w[0] == 'w');
        if has_prefix(w, "http://"@) {
            assert(w.take(7)[0] == "http://"@[0]);
        }
    }
    lemma_strip_once(t, "https://"@);
    lemma_strip_once(t, "http://"@);
    lemma_strip_once(t, "www."@);
    lemma_strip_once(w, "https://"@);
    lemma_strip_once(w, "http://"@);
    let hw = "http://"@ + w;
    assert(!has_prefix(hw, "https://"@)) by {
        if has_prefix(hw, "https://"@) {
            assert(hw.take(8)[4] == "https://"@[4]);
            assert(hw[4] == ':');
        }
    }
    assert(stripped(hw, "https://"@) == hw);
    let hs = "http://"@ + t;
    assert(!has_prefix(hs, "https://"@)) by {
        if has_prefix(hs, "https://"@) {
            assert(hs.take(8)[4] == "https://"@[4]);
            assert(hs[4] == ':');
        }
    }
    assert(stripped(t, "https://"@) == t && stripped(t, "http://"@) == t && stripped(t, "www."@) == t);
    assert(stripped(w, "https://"@) == w && stripped(w, "http://"@) == w);
    assert(stripped(hs, "https://"@) == hs);
    lemma_host_end(host, rest);
    assert(t.take(host.len() as int) =~= host);
}

proof fn lemma_strip_once(t: Seq<char>, p: Seq<char>)
    requires
        p.len() > 0,
        !has_prefix(t, p),
    ensures
        stripped(p + t, p) == t,
{
    assert((p + t).take(p.len() as int) =~= p);
    assert((p + t).skip(p.len() as int) =~= t);
    assert(stripped(t, p) == t);
}

proof fn lemma_host_end(host: Seq<char>, rest: Seq<char>)
    requires
        !host.contains('/'),
        rest.len() == 0 || rest[0] == '/',
    ensures
        first_at(host + rest, '/') == host.len(),
    decreases host.len(),
{
    let t = host + rest;
    if host.len() > 0 {
        assert(host.contains(host[0]));
        assert(t[0] == host[0]);
        let d = host.drop_first();
        assert(t.drop_first() =~= d + rest);
        assert forall|x: char| d.contains(x) implies host.contains(x) by {
            let k = choose|k: int| 0 <= k < d.len() && d[k] == x;
            assert(host[k + 1] == x);
        }
        assert(!d.contains('/'));
        lemma_host_end(d, rest);
    } else {
        assert(t =~= rest);
    }
}

/// The logins of an export of items come in with their names, usernames, passwords, first
/// addresses and notes, under the names of their folders; what is no login is counted and
/// skipped.
pub proof fn law_login_items_come_in(
    vault: &mut Vault,
    export: &BwExport,
    key: &[u8; 32],
    now: &str,
    p: (usize, usize),
    items: Seq<BwItem>,
    i: int,
)
    requires
        call_ensures(import_bitwarden_json, (vault, export, key, now), Ok(p)),
        export.items matches Some(v) && v@ == items,
        0 <= i < items.len(),
    ensures
        p.0 + p.1 == items.len(),
        final(vault)@.secrets.len() == old(vault)@.secrets.len() + p.0,
        final(vault)@.secrets.take(old(vault)@.secrets.len() as int) == old(vault)@.secrets,
        else_untouched(final(vault)@, old(vault)@),
        items[i].item_type == 1 ==> exists|k: int|
            old(vault)@.secrets.len() <= k < final(vault)@.secrets.len() && holds_item(
                #[trigger] final(vault)@.secrets[k],
                items[i],
                folders_of(*export),
                key@,
                now@,
            ),
        (forall|k: int| 0 <= k < items.len() ==> (#[trigger] items[k]).item_type == 1) ==> p.1 == 0,
        (forall|k: int| 0 <= k < items.len() ==> (#[trigger] items[k]).item_type != 1) ==> p.0 == 0,
{
    let folders = folders_of(*export);
    let d = bw_drafts(items, folders);
    let n = old(vault)@.secrets.len() as int;
    let new = final(vault)@;
    assert(items_of(*export) == items);
    lemma_bw_drafts(items, folders);
    assert(added_all(Ok(p.0), old(vault)@, new, d, key@, now@));
    if items[i].item_type == 1 {
        let x = bw_draft(items[i], folders);
        let k = choose|k: int| 0 <= k < d.len() && d[k] == x;
        assert(crate::import::record_holds(new.secrets[n + k], d[k], key@, now@));
        lemma_folder(folders, items[i]);
        assert(holds_item(new.secrets[n + k], items[i], folders, key@, now@));
    }
}

proof fn lemma_bw_drafts(items: Seq<BwItem>, folders: Seq<BwFolder>)
    ensures
        forall|i: int|
            0 <= i < items.len() && (#[trigger] items[i]).item_type == 1 ==> bw_drafts(
                items,
                folders,
            ).contains(bw_draft(items[i], folders)),
        bw_drafts(items, folders).len() <= items.len(),
        (forall|k: int| 0 <= k < items.len() ==> (#[trigger] items[k]).item_type == 1) ==> bw_drafts(
            items,
            folders,
        ).len() == items.len(),
        (forall|k: int| 0 <= k < items.len() ==> (#[trigger] items[k]).item_type != 1) ==> bw_drafts(
            items,
            folders,
        ).len() == 0,
    decreases items.len(),
{
    if items.len() > 0 {
        let e = items.drop_last();
        lemma_bw_drafts(e, folders);
        let a = bw_drafts(e, folders);
        let b = bw_drafts(items, folders);
        assert forall|i: int| 0 <= i < items.len() && (#[trigger] items[i]).item_type == 1 implies b.contains(
            bw_draft(items[i], folders),
        ) by {
            if i < e.len() {
                assert(e[i] == items[i]);
                let k = choose|k: int| 0 <= k < a.len() && a[k] == bw_draft(items[i], folders);
                assert(b[k] == a[k]);
            } else {
                assert(b[b.len() - 1] == bw_draft(items[i], folders));
            }
        }
        if forall|k: int| 0 <= k < items.len() ==> (#[trigger] items[k]).item_type == 1 {
            assert forall|k: int| 0 <= k < e.len() implies (#[trigger] e[k]).item_type == 1 by {
                assert(e[k] == items[k]);
            }
            assert(items[items.len() - 1].item_type == 1);
        }
        if forall|k: int| 0 <= k < items.len() ==> (#[trigger] items[k]).item_type != 1 {
            assert forall|k: int| 0 <= k < e.len() implies (#[trigger] e[k]).item_type != 1 by {
                assert(e[k] == items[k]);
            }
            assert(items[items.len() - 1].item_type != 1);
        }
    }
}

/// Whether a folder is the last with an id.
pub open spec fn last_folder(folders: Seq<BwFolder>, k: int, id: Seq<char>) -> bool {
    &&& 0 <= k < folders.len()
    &&& folders[k].id matches Some(x) && x@ == id
    &&& forall|j: int|
        k < j < folders.len() ==> !((#[trigger] folders[j]).id matches Some(x) && x@ == id)
}

proof fn lemma_folder(folders: Seq<BwFolder>, item: BwItem)
    ensures
        item.folder_id matches Some(id) ==> match folder_name(folders, id@) {
            Some(n) => exists|k: int| #[trigger] last_folder(folders, k, id@) && folders[k].name@ == n,
            None => forall|k: int| !(#[trigger] last_folder(folders, k, id@)),
        },
    decreases folders.len(),
{
    if item.folder_id is Some && folders.len() > 0 {
        let id = item.folder_id->0@;
        let d = folders.drop_last();
        let n = folders.len() - 1;
        if folders[n].id is Some && folders[n].id->0@ == id {
            assert(last_folder(folders, n, id));
        } else {
            lemma_folder(d, item);
            if folder_name(d, id) is Some {
                let k = choose|k: int| #[trigger] last_folder(d, k, id) && d[k].name@ == folder_name(d, id)->0;
                assert(last_folder(folders, k, id)) by {
                    assert(folders[k] == d[k]);
                    assert forall|j: int| k < j < folders.len() implies !((
                    #[trigger] folders[j]).id matches Some(x) && x@ == id) by {
                        if j < n {
                            assert(folders[j] == d[j]);
                        }
                    }
                }
                assert(folders[k] == d[k]);
            } else {
                assert forall|k: int| !(#[trigger] last_folder(folders, k, id)) by {
                    if last_folder(folders, k, id) {
                        assert(k != n);
                        assert(d[k] == folders[k]);
                        assert forall|j: int| k < j < d.len() implies !((
                        #[trigger] d[j]).id matches Some(x) && x@ == id) by {
                            assert(folders[j] == d[j]);
                        }
                        assert(last_folder(d, k, id));
                    }
                }
            }
        }
    }
}

/// Whether a record holds what a login does.
pub open spec fn holds_item(
    n: RecordView,
    item: BwItem,
    folders: Seq<BwFolder>,
    key: Seq<u8>,
    now: Seq<char>,
) -> bool {
    &&& n.title == item.name@
    &&& n.updated_at == now
    &&& item.login matches Some(l) ==> {
        &&& n.username == (match l.username {
            Some(u) => u@,
            None => Seq::empty(),
        })
        &&& reads(n.password, key, match l.password {
            Some(p) => p@,
            None => Seq::empty(),
        })
        &&& (l.uris matches Some(u) && u@.len() > 0 && u@[0] is Some) ==> n.url == l.uris->0@[0]->0@
        &&& !(l.uris matches Some(u) && u@.len() > 0 && u@[0] is Some) ==> n.url.len() == 0
    }
    &&& item.notes matches Some(t) ==> (if t@.len() > 0 {
        n.notes matches Some(x) && reads(x, key, t@)
    } else {
        n.notes is None
    })
    &&& item.notes is None ==> n.notes is None
    &&& match item.folder_id {
        Some(id) => if exists|k: int| #[trigger] last_folder(folders, k, id@) {
            exists|k: int| #[trigger] last_folder(folders, k, id@) && n.category == folders[k].name@
        } else {
            n.category == "Imported"@
        },
        None => n.category == "Imported"@,
    }
}

/// Whether every column that a format needs is there.
pub open spec fn complete_header(f: ImportFormat, h: Seq<Seq<char>>) -> bool {
    &&& !unheaded(h, "username"@)
    &&& !unheaded(h, "password"@)
    &&& match f {
        ImportFormat::FirefoxCsv => !unheaded(h, "url"@),
        ImportFormat::BraveChromeCsv => !unheaded(h, "url"@) && !unheaded(h, "name"@),
        ImportFormat::LastPassCsv => !unheaded(h, "url"@) && !unheaded(h, "name"@) && !unheaded(
            h,
            "extra"@,
        ) && !unheaded(h, "grouping"@),
        ImportFormat::KeePassXcCsv => !unheaded(h, "url"@) && !unheaded(h, "title"@) && !unheaded(
            h,
            "notes"@,
        ) && !unheaded(h, "group"@),
        ImportFormat::OnePasswordCsv => !unheaded(h, "title"@) && (!unheaded(h, "url"@) || !unheaded(
            h,
            "website"@,
        )),
        ImportFormat::KeyStashCsv => !unheaded(h, "url"@) && !unheaded(h, "title"@) && !unheaded(
            h,
            "notes"@,
        ) && !unheaded(h, "category"@),
        ImportFormat::BitwardenJson => true,
    }
}

proof fn lemma_headed(h: Seq<Seq<char>>, name: Seq<char>)
    ensures
        (column(h, name) is Some) == !unheaded(h, name),
        crate::import::has_column(h, name) == !unheaded(h, name),
{
    lemma_column(h, name);
    if column(h, name) is Some {
        assert(lower(trimmed(h[column(h, name)->0])) == name);
    }
}

/// A table is taken exactly where every column that its format needs is there.
#[verifier::rlimit(40)]
pub proof fn law_tables_need_their_columns(
    f: ImportFormat,
    headers: &Vec<String>,
    r: Result<Columns, String>,
)
    requires
        f != ImportFormat::BitwardenJson,
        call_ensures(find_columns, (f, headers), r),
    ensures
        r is Ok <==> complete_header(f, texts(headers@)),
{
    let h = texts(headers@);
    let w = crate::import::wanted(f);
    lemma_headed(h, "username"@);
    lemma_headed(h, "password"@);
    lemma_headed(h, "url"@);
    lemma_headed(h, "website"@);
    lemma_headed(h, "name"@);
    lemma_headed(h, "title"@);
    lemma_headed(h, "notes"@);
    lemma_headed(h, "extra"@);
    lemma_headed(h, "grouping"@);
    lemma_headed(h, "group"@);
    lemma_headed(h, "category"@);
    lemma_some_missing(w, h);
    if crate::import::first_missing(w, h) is None {
        lemma_none_missing(w, h);
        match f {
            ImportFormat::BraveChromeCsv => {
                assert(w[0] == "name"@ && w[1] == "url"@ && w[2] == "username"@ && w[3] == "password"@);
            },
            ImportFormat::FirefoxCsv => {
                assert(w[0] == "url"@ && w[1] == "username"@ && w[2] == "password"@);
            },
            ImportFormat::LastPassCsv => {
                assert(w[0] == "name"@ && w[1] == "url"@ && w[2] == "username"@ && w[3] == "password"@);
                assert(w[4] == "extra"@ && w[5] == "grouping"@);
            },
            ImportFormat::KeePassXcCsv => {
                assert(w[0] == "group"@ && w[1] == "title"@ && w[2] == "username"@ && w[3]
                    == "password"@);
                assert(w[4] == "url"@ && w[5] == "notes"@);
            },
            ImportFormat::OnePasswordCsv => {
                assert(w[0] == "title"@ && w[1] == "username"@ && w[2] == "password"@);
            },
            ImportFormat::KeyStashCsv => {
                assert(w[0] == "title"@ && w[1] == "url"@ && w[2] == "username"@ && w[3] == "password"@);
                assert(w[4] == "notes"@ && w[5] == "category"@);
            },
            _ => {},
        }
    }
}

proof fn lemma_some_missing(names: Seq<Seq<char>>, h: Seq<Seq<char>>)
    ensures
        crate::import::first_missing(names, h) matches Some(n) ==> column(h, n) is None
            && names.contains(n),
    decreases names.len(),
{
    if names.len() > 0 {
        let d = names.drop_first();
        lemma_some_missing(d, h);
        if column(h, names[0]) is Some {
            if crate::import::first_missing(d, h) is Some {
                let n = crate::import::first_missing(d, h)->0;
                let k = choose|k: int| 0 <= k < d.len() && d[k] == n;
                assert(names[k + 1] == n);
            }
        } else {
            assert(names[0] == crate::import::first_missing(names, h)->0);
        }
    }
}

/// A table that is refused is refused for a column that it lacks, which is named.
pub proof fn law_missing_columns_are_named(f: ImportFormat, headers: &Vec<String>, e: String)
    requires
        f != ImportFormat::BitwardenJson,
        call_ensures(find_columns, (f, headers), Err(e)),
    ensures
        e@ == "Missing URL / Website column"@ || exists|name: Seq<char>|
            unheaded(texts(headers@), name) && (e@ == #[trigger] ("Missing '"@ + name + "' column"@) || (
            name == "extra"@ && e@ == "Missing 'extra' (notes) column"@)),
        e@ == "Missing URL / Website column"@ ==> f == ImportFormat::OnePasswordCsv || exists|
            name: Seq<char>,
        | e@ == #[trigger] ("Missing '"@ + name + "' column"@),
{
    let h = texts(headers@);
    let w = crate::import::wanted(f);
    lemma_some_missing(w, h);
    if crate::import::first_missing(w, h) is Some {
        let name = crate::import::first_missing(w, h)->0;
        lemma_headed(h, name);
        assert(unheaded(h, name));
        let m = "Missing '"@ + name + "' column"@;
        if name == "extra"@ {
            reveal_strlit("Missing 'extra' (notes) column");
            reveal_strlit("Missing URL / Website column");
            assert(e@[8] != "Missing URL / Website column"@[8]);
        } else {
            assert(e@ == m);
        }
    }
}

/// Each format has its name.
pub proof fn law_formats_have_names(f: ImportFormat, s: &'static str)
    requires
        call_ensures(ImportFormat::name, (&f,), s),
    ensures
        f == ImportFormat::BitwardenJson ==> s@ == "Bitwarden (JSON)"@,
        f == ImportFormat::BraveChromeCsv ==> s@ == "Brave / Chrome (CSV)"@,
        f == ImportFormat::FirefoxCsv ==> s@ == "Firefox (CSV)"@,
        f == ImportFormat::LastPassCsv ==> s@ == "LastPass (CSV)"@,
        f == ImportFormat::KeePassXcCsv ==> s@ == "KeePassXC (CSV)"@,
        f == ImportFormat::OnePasswordCsv ==> s@ == "1Password (CSV)"@,
        f == ImportFormat::KeyStashCsv ==> s@ == "KeyStash (CSV)"@,
{
}

/// Each manager's table is known by the columns that only it has.
pub proof fn law_tables_are_known_by_their_columns(headers: &Vec<String>, r: Option<ImportFormat>)
    requires
        call_ensures(detect_csv_format, (headers,), r),
    ensures
        ({
            let h = texts(headers@);
            let login = !unheaded(h, "username"@) && !unheaded(h, "password"@);
            &&& r is Some ==> login
            &&& r == Some(ImportFormat::KeyStashCsv) ==> h.len() == 6 && !unheaded(h, "title"@)
                && !unheaded(h, "url"@) && !unheaded(h, "notes"@) && !unheaded(h, "category"@)
            &&& r == Some(ImportFormat::LastPassCsv) ==> !unheaded(h, "extra"@) && !unheaded(h, "fav"@)
                && !unheaded(h, "url"@)
            &&& r == Some(ImportFormat::FirefoxCsv) ==> !unheaded(h, "httprealm"@) && !unheaded(
                h,
                "url"@,
            )
            &&& r == Some(ImportFormat::KeePassXcCsv) ==> !unheaded(h, "group"@) && !unheaded(
                h,
                "title"@,
            ) && !unheaded(h, "notes"@)
            &&& r == Some(ImportFormat::BraveChromeCsv) ==> !unheaded(h, "name"@) && !unheaded(h, "url"@)
            &&& r == Some(ImportFormat::OnePasswordCsv) ==> !unheaded(h, "title"@) && (!unheaded(
                h,
                "website"@,
            ) || !unheaded(h, "url"@)) && unheaded(h, "group"@)
            &&& r != Some(ImportFormat::BitwardenJson)
            &&& login && h.len() == 6 && !unheaded(h, "title"@) && !unheaded(h, "url"@) && !unheaded(
                h,
                "notes"@,
            ) && !unheaded(h, "category"@) ==> r == Some(ImportFormat::KeyStashCsv)
            &&& login && !unheaded(h, "url"@) && !unheaded(h, "extra"@) && !unheaded(h, "fav"@)
                && unheaded(h, "category"@) ==> r == Some(ImportFormat::LastPassCsv)
            &&& login && !unheaded(h, "url"@) && !unheaded(h, "httprealm"@) && unheaded(h, "category"@)
                && unheaded(h, "fav"@) ==> r == Some(ImportFormat::FirefoxCsv)
            &&& login && !unheaded(h, "group"@) && !unheaded(h, "title"@) && !unheaded(h, "notes"@)
                && unheaded(h, "category"@) && unheaded(h, "fav"@) && unheaded(h, "httprealm"@) ==> r
                == Some(ImportFormat::KeePassXcCsv)
            &&& login && !unheaded(h, "name"@) && !unheaded(h, "url"@) && unheaded(h, "title"@)
                && unheaded(h, "fav"@) && unheaded(h, "httprealm"@) ==> r == Some(
                ImportFormat::BraveChromeCsv,
            )
            &&& login && !unheaded(h, "title"@) && (!unheaded(h, "website"@) || !unheaded(h, "url"@))
                && unheaded(h, "group"@) && unheaded(h, "name"@) && unheaded(h, "category"@) && unheaded(
                h,
                "fav"@,
            ) && unheaded(h, "httprealm"@) ==> r == Some(ImportFormat::OnePasswordCsv)
        }),
{
    let h = texts(headers@);
    lemma_headed(h, "username"@);
    lemma_headed(h, "password"@);
    lemma_headed(h, "url"@);
    lemma_headed(h, "website"@);
    lemma_headed(h, "name"@);
    lemma_headed(h, "title"@);
    lemma_headed(h, "notes"@);
    lemma_headed(h, "extra"@);
    lemma_headed(h, "fav"@);
    lemma_headed(h, "httprealm"@);
    lemma_headed(h, "group"@);
    lemma_headed(h, "category"@);
}

/// A file that begins with a brace is an export of items where it names folders or items; any
/// other is known by the columns of its table, and refused without them.
pub proof fn law_files_are_classified(
    head: &str,
    headers: &Option<Vec<String>>,
    r: Result<ImportFormat, String>,
    known: Option<ImportFormat>,
)
    requires
        call_ensures(classify, (head, headers), r),
        headers matches Some(h) ==> call_ensures(detect_csv_format, (&h,), known),
        headers is None ==> known is None,
    ensures
        ({
            let t = crate::text::trim_start(head@);
            let braced = t.len() > 0 && t[0] == '{';
            let named = occurs(head@, "\"folders\""@) || occurs(head@, "\"items\""@);
            &&& braced && named ==> r == Ok::<ImportFormat, String>(ImportFormat::BitwardenJson)
            &&& braced && !named ==> r is Err
            &&& !braced && known is Some ==> r == Ok::<ImportFormat, String>(known->0)
            &&& !braced && known is None ==> r is Err
        }),
{
}

/// Credentials are added exactly where each can be encrypted, there are ids for all, and their
/// identities are new and differ; else the vault is left alone.
pub proof fn law_credentials_are_added_or_none_is(
    vault: &mut Vault,
    d: &Vec<Draft>,
    ids: &Vec<String>,
    key: &[u8; 32],
    now: &str,
    r: Result<usize, String>,
    i: int,
)
    requires
        ids@.len() >= d@.len(),
        call_ensures(import_drafts_with, (vault, d, ids, key, now), r),
    ensures
        r is Ok <==> (forall|k: int| 0 <= k < d@.len() ==> fits(#[trigger] d@[k])) && old(
            vault,
        )@.next_id + d@.len() <= i64::MAX && (forall|a: int, b: int|
            0 <= a < b < d@.len() ==> (#[trigger] ids@[a])@ != (#[trigger] ids@[b])@) && (forall|
            a: int,
            s: int,
        |
            0 <= a < d@.len() && 0 <= s < old(vault)@.secrets.len() ==> (#[trigger] ids@[a])@ != (
            #[trigger] old(vault)@.secrets[s]).uuid),
        r is Err ==> *final(vault) == *old(vault),
        r is Ok ==> r->Ok_0 == d@.len() && final(vault)@.secrets.len() == old(vault)@.secrets.len()
            + d@.len(),
        r is Ok && 0 <= i < d@.len() ==> ({
            let n = final(vault)@.secrets[old(vault)@.secrets.len() + i];
            &&& n.uuid == ids@[i]@
            &&& n.title == d@[i].title@
            &&& n.username == d@[i].username@
            &&& n.url == d@[i].url@
            &&& n.category == d@[i].category@
            &&& reads(n.password, key@, d@[i].password@)
        }),
{
    let v = old(vault)@;
    let t = texts(ids@);
    let e = crate::import::drafts(d@);
    assert forall|k: int| 0 <= k < d@.len() implies e[k] == (#[trigger] d@[k])@ by {}
    assert(crate::import::all_storable(e) <==> forall|k: int|
        0 <= k < d@.len() ==> fits(#[trigger] d@[k])) by {
        if crate::import::all_storable(e) {
            assert forall|k: int| 0 <= k < d@.len() implies fits(#[trigger] d@[k]) by {
                assert(crate::db::store::storable(e[k].password, e[k].notes));
            }
        }
        if forall|k: int| 0 <= k < d@.len() ==> fits(#[trigger] d@[k]) {
            assert forall|k: int| 0 <= k < e.len() implies crate::db::store::storable(
                (#[trigger] e[k]).password,
                e[k].notes,
            ) by {
                assert(fits(d@[k]));
            }
        }
    }
    let n = d@.len() as int;
    if r is Ok {
        assert forall|a: int, b: int| 0 <= a < b < n implies (#[trigger] ids@[a])@ != (
        #[trigger] ids@[b])@ by {
            assert(t[a] == ids@[a]@ && t[b] == ids@[b]@);
        }
        assert forall|a: int, s: int| 0 <= a < n && 0 <= s < v.secrets.len() implies (
        #[trigger] ids@[a])@ != (#[trigger] v.secrets[s]).uuid by {
            assert(t[a] == ids@[a]@);
            if t[a] == v.secrets[s].uuid {
                assert(crate::db::records::has_uuid(v.secrets, t[a]));
            }
        }
        if 0 <= i < n {
            let new = final(vault)@;
            assert(crate::import::record_holds(new.secrets[v.secrets.len() + i], e[i], key@, now@));
            assert(new.secrets[v.secrets.len() + i].uuid == t[i]);
        }
    } else if (forall|k: int| 0 <= k < d@.len() ==> fits(#[trigger] d@[k])) && v.next_id + d@.len()
        <= i64::MAX {
        if (forall|a: int, b: int|
            0 <= a < b < n ==> (#[trigger] ids@[a])@ != (#[trigger] ids@[b])@) && (forall|a: int, s: int|
            0 <= a < n && 0 <= s < v.secrets.len() ==> (#[trigger] ids@[a])@ != (
            #[trigger] v.secrets[s]).uuid) {
            assert(crate::db::records::unused(t, n, v.secrets)) by {
                assert forall|a: int, b: int| 0 <= a < b < n implies #[trigger] t[a] != #[trigger] t[b] by {
                    assert(ids@[a]@ != ids@[b]@);
                }
                assert forall|a: int| 0 <= a < n implies !crate::db::records::has_uuid(
                    v.secrets,
                    #[trigger] t[a],
                ) by {
                    if crate::db::records::has_uuid(v.secrets, t[a]) {
                        let s = choose|s: int|
                            0 <= s < v.secrets.len() && (#[trigger] v.secrets[s]).uuid == t[a];
                        assert(ids@[a]@ != v.secrets[s].uuid);
                    }
                }
            }
        }
    }
}

/// Whether encryption takes the texts of a credential.
pub open spec fn fits(d: Draft) -> bool {
    encode_utf8(d.password@).len() <= crate::crypto::MAX_PLAINTEXT && (d.notes matches Some(n)
        ==> encode_utf8(n@).len() <= crate::crypto::MAX_PLAINTEXT)
}

/// Cells are separated by commas and rows by line ends.
pub proof fn law_rows_are_separated_by_commas(
    cells: &Vec<String>,
    r: String,
    a: &str,
    b: &str,
    x: String,
    y: String,
)
    requires
        call_ensures(write_row, (cells,), r),
        call_ensures(escape_csv_quoting, (a,), x),
        call_ensures(escape_csv_quoting, (b,), y),
        cells@.len() == 2,
        cells@[0]@ == a@,
        cells@[1]@ == b@,
    ensures
        r@ == x@ + seq![','] + y@,
        csv_text(seq![texts(cells@)]) == r@ + seq!['\n'],
{
    let t = texts(cells@);
    assert(t[0] == a@ && t[1] == b@);
    assert(t.drop_last().len() == 1 && t.drop_last()[0] == a@);
    assert(crate::csv_format::row_text(t.drop_last()) == x@);
    let s = seq![t];
    assert(s.drop_last() =~= Seq::<Seq<Seq<char>>>::empty());
    assert(csv_text(s.drop_last()) == Seq::<char>::empty());
    assert(csv_text(s) =~= r@ + seq!['\n']);
}

/// What a cell is preceded by where a spreadsheet would take it for a formula.
pub proof fn law_formulas_are_disarmed(val: &str, r: String)
    requires
        call_ensures(guard_cell, (val,), r),
    ensures
        r@.len() > 0 ==> r@[0] != '=' && r@[0] != '+' && r@[0] != '-' && r@[0] != '@',
        val@.len() > 0 && (val@[0] == '=' || val@[0] == '+' || val@[0] == '-' || val@[0] == '@')
            ==> r@.len() == val@.len() + 1 && r@[0] == '\'' && r@.drop_first() == val@,
        val@.len() == 0 || !(val@[0] == '=' || val@[0] == '+' || val@[0] == '-' || val@[0] == '@')
            ==> r@ == val@,
{
    if val@.len() > 0 && (val@[0] == '=' || val@[0] == '+' || val@[0] == '-' || val@[0] == '@') {
        assert(r@.drop_first() =~= val@);
    }
}

/// A cell without a comma, a quote or a line break is written as it is; any other between
/// quotes. A password is never guarded.
pub proof fn law_cells_are_quoted_where_needed(val: &str, r: String, p: String)
    requires
        call_ensures(escape_csv_cell, (val,), r),
        call_ensures(escape_csv_cell_password, (val,), p),
    ensures
        !val@.contains(',') && !val@.contains('"') && !val@.contains('\n') && !val@.contains('\r')
            ==> p@ == val@,
        val@.contains(',') || val@.contains('"') || val@.contains('\n') || val@.contains('\r')
            ==> p@.len() >= val@.len() + 2 && p@[0] == '"' && p@.last() == '"',
        (val@.contains(',') || val@.contains('\n') || val@.contains('\r')) && !val@.contains('"')
            ==> p@ == seq!['"'] + val@ + seq!['"'],
        val@.len() > 0 && val@[0] != '=' && val@[0] != '+' && val@[0] != '-' && val@[0] != '@'
            ==> r@ == p@,
{
    lemma_doubled(val@);
}

/// A quote within a cell is written twice.
pub proof fn law_quotes_are_doubled(val: &str, p: String, a: Seq<char>, b: Seq<char>)
    requires
        call_ensures(escape_csv_quoting, (val,), p),
        val@ == a + seq!['"'] + b,
        !a.contains('"'),
        !b.contains('"'),
    ensures
        p@ == seq!['"'] + a + seq!['"', '"'] + b + seq!['"'],
{
    assert(val@[a.len() as int] == '"');
    assert(val@.contains('"'));
    lemma_one_quote(a, b);
    assert(p@ =~= seq!['"'] + (a + seq!['"', '"'] + b) + seq!['"']);
    assert(p@ =~= seq!['"'] + a + seq!['"', '"'] + b + seq!['"']);
}

proof fn lemma_one_quote(a: Seq<char>, b: Seq<char>)
    requires
        !a.contains('"'),
        !b.contains('"'),
    ensures
        crate::csv_format::doubled(a + seq!['"'] + b) == a + seq!['"', '"'] + b,
    decreases b.len(),
{
    let s = a + seq!['"'] + b;
    if b.len() == 0 {
        assert(s.last() == '"');
        assert(s.drop_last() =~= a);
        lemma_doubled(a);
        assert(a + seq!['"', '"'] + b =~= a + seq!['"', '"']);
    } else {
        let d = b.drop_last();
        assert(s.last() == b.last());
        assert(b.contains(b[b.len() - 1]));
        assert(s.drop_last() =~= a + seq!['"'] + d);
        assert(!d.contains('"')) by {
            if d.contains('"') {
                let k = choose|k: int| 0 <= k < d.len() && d[k] == '"';
                assert(b[k] == '"');
            }
        }
        lemma_one_quote(a, d);
        assert((a + seq!['"', '"'] + d).push(b.last()) =~= a + seq!['"', '"'] + b);
    }
}

proof fn lemma_doubled(s: Seq<char>)
    ensures
        crate::csv_format::doubled(s).len() >= s.len(),
        !s.contains('"') ==> crate::csv_format::doubled(s) == s,
    decreases s.len(),
{
    if s.len() > 0 {
        let d = s.drop_last();
        lemma_doubled(d);
        if !s.contains('"') {
            assert forall|x: char| d.contains(x) implies s.contains(x) by {
                let k = choose|k: int| 0 <= k < d.len() && d[k] == x;
                assert(s[k] == x);
            }
            assert(s.contains(s.last())) by {
                assert(s[s.len() - 1] == s.last());
            }
            assert(d.push(s.last()) =~= s);
        }
    }
}

/// Whether a cell holds a text, behind a quote mark where it would be taken for a formula.
pub open spec fn cell_holds(cell: Seq<char>, text: Seq<char>) -> bool {
    if text.len() > 0 && (text[0] == '=' || text[0] == '+' || text[0] == '-' || text[0] == '@') {
        cell == seq!['\''] + text
    } else {
        cell == text
    }
}

/// Whether a row of an export is that of a record.
pub open spec fn is_row_of(row: Seq<Seq<char>>, s: RecordView, key: Seq<u8>) -> bool {
    &&& row.len() == 6
    &&& cell_holds(row[0], s.title)
    &&& cell_holds(row[1], s.url)
    &&& cell_holds(row[2], s.username)
    &&& forall|t: Seq<char>| #[trigger] reads(s.password, key, t) ==> row[3] == t
    &&& opened(s.password, key) is Err ==> row[3].len() == 0
    &&& s.notes is None ==> row[4].len() == 0
    &&& s.notes matches Some(d) ==> forall|t: Seq<char>| #[trigger]
        reads(d, key, t) ==> cell_holds(row[4], t)
    &&& cell_holds(row[5], s.category)
}

/// Whether an export of these ids is to have a record.
pub open spec fn asked_for(ids: Option<Vec<i64>>, s: RecordView) -> bool {
    match ids {
        Some(v) => exists|k: int| 0 <= k < v@.len() && #[trigger] v@[k] == s.id,
        None => true,
    }
}

/// Whether one of the rows under a heading is that of a record.
pub open spec fn has_row(rows: Seq<Seq<Seq<char>>>, s: RecordView, key: Seq<u8>) -> bool {
    exists|k: int| 1 <= k < rows.len() && is_row_of(#[trigger] rows[k], s, key)
}

/// Whether a row is that of one of the records that were asked for.
pub open spec fn row_of_some(
    row: Seq<Seq<char>>,
    s: Seq<RecordView>,
    ids: Option<Vec<i64>>,
    key: Seq<u8>,
) -> bool {
    exists|i: int| 0 <= i < s.len() && asked_for(ids, #[trigger] s[i]) && is_row_of(row, s[i], key)
}

/// Whether rows under a heading are those of the records that were asked for.
pub open spec fn rows_of(rows: Seq<Seq<Seq<char>>>, v: VaultView, ids: Option<Vec<i64>>, key: Seq<u8>) -> bool {
    &&& rows.len() > 0
    &&& rows[0] == seq!["title"@, "url"@, "username"@, "password"@, "notes"@, "category"@]
    &&& forall|i: int|
        0 <= i < v.secrets.len() && asked_for(ids, #[trigger] v.secrets[i]) ==> has_row(
            rows,
            v.secrets[i],
            key,
        )
    &&& forall|k: int|
        1 <= k < rows.len() ==> row_of_some(#[trigger] rows[k], v.secrets, ids, key)
    &&& ids is None ==> rows.len() == v.secrets.len() + 1
}

/// An export has a heading and one row for each record that was asked for, all of them where no
/// choice was made, and no other; a row has the record's title, address, username, password,
/// notes and tags, the password exactly as it was stored.
pub proof fn law_export_has_every_chosen_record(
    vault: &Vault,
    key: &[u8; 32],
    ids: &Option<Vec<i64>>,
    r: (String, usize),
)
    requires
        call_ensures(export_vault_csv, (vault, key, ids), r),
    ensures
        exists|rows: Seq<Seq<Seq<char>>>|
            r.0@ == #[trigger] csv_text(rows) && rows.len() == r.1 + 1 && rows_of(
                rows,
                vault@,
                *ids,
                key@,
            ),
{
    let v = vault@;
    let filter = crate::import::ids_opt(*ids);
    let s = choose|s: Seq<RecordView>|
        crate::db::store::by_title(s) && s.to_multiset() == v.secrets.to_multiset() && r.0@ == csv_text(
            #[trigger] export_rows(s, filter, key@),
        ) && r.1 + 1 == export_rows(s, filter, key@).len();
    let rows = export_rows(s, filter, key@);
    lemma_rows(s, *ids, key@);
    s.to_multiset_ensures();
    v.secrets.to_multiset_ensures();
    assert(s.len() == v.secrets.len());
    assert forall|i: int| 0 <= i < v.secrets.len() && asked_for(*ids, #[trigger] v.secrets[i]) implies has_row(
        rows,
        v.secrets[i],
        key@,
    ) by {
        assert(v.secrets.contains(v.secrets[i]));
        assert(s.to_multiset().count(v.secrets[i]) > 0);
        let j = choose|j: int| 0 <= j < s.len() && s[j] == v.secrets[i];
        assert(asked_for(*ids, s[j]));
    }
    assert forall|k: int| 1 <= k < rows.len() implies row_of_some(
        #[trigger] rows[k],
        v.secrets,
        *ids,
        key@,
    ) by {
        assert(row_of_some(rows[k], s, *ids, key@));
        let j = choose|j: int|
            0 <= j < s.len() && asked_for(*ids, #[trigger] s[j]) && is_row_of(rows[k], s[j], key@);
        assert(s.contains(s[j]));
        assert(v.secrets.to_multiset().count(s[j]) > 0);
        let i = choose|i: int| 0 <= i < v.secrets.len() && v.secrets[i] == s[j];
        assert(asked_for(*ids, v.secrets[i]));
    }
}

proof fn lemma_cells(s: RecordView, key: Seq<u8>)
    ensures
        is_row_of(export_cells(s, key), s, key),
{
    let row = export_cells(s, key);
    assert forall|t: Seq<char>| #[trigger] reads(s.password, key, t) implies row[3] == t by {
        crate::crypto::lemma_text_round_trip(t);
    }
    if s.notes is Some {
        assert forall|t: Seq<char>| #[trigger] reads(s.notes->0, key, t) implies cell_holds(row[4], t) by {
            crate::crypto::lemma_text_round_trip(t);
        }
    }
}

#[verifier::rlimit(40)]
proof fn lemma_rows(s: Seq<RecordView>, ids: Option<Vec<i64>>, key: Seq<u8>)
    ensures
        ({
            let rows = export_rows(s, crate::import::ids_opt(ids), key);
            &&& rows.len() > 0
            &&& rows[0] == seq!["title"@, "url"@, "username"@, "password"@, "notes"@, "category"@]
            &&& forall|i: int|
                0 <= i < s.len() && asked_for(ids, #[trigger] s[i]) ==> has_row(rows, s[i], key)
            &&& forall|k: int|
                1 <= k < rows.len() ==> row_of_some(#[trigger] rows[k], s, ids, key)
            &&& ids is None ==> rows.len() == s.len() + 1
        }),
    decreases s.len(),
{
    let filter = crate::import::ids_opt(ids);
    let rows = export_rows(s, filter, key);
    if s.len() > 0 {
        let d = s.drop_last();
        let a = export_rows(d, filter, key);
        lemma_rows(d, ids, key);
        lemma_cells(s.last(), key);
        let n = s.len() - 1;
        assert(crate::import::chosen(s[n], filter) == asked_for(ids, s[n])) by {
            if ids is Some {
                let w = ids->0@;
                if crate::import::listed(w, s[n].id) {
                    let k = choose|k: int| 0 <= k < w.len() && #[trigger] w[k] == s[n].id;
                    assert(w[k] == s[n].id);
                }
                if asked_for(ids, s[n]) {
                    let k = choose|k: int| 0 <= k < w.len() && #[trigger] w[k] == s[n].id;
                    assert(w[k] == s[n].id);
                }
            }
        }
        assert forall|i: int| 0 <= i < s.len() && asked_for(ids, #[trigger] s[i]) implies has_row(
            rows,
            s[i],
            key,
        ) by {
            if i < n {
                assert(d[i] == s[i]);
                assert(has_row(a, s[i], key));
                let k = choose|k: int| 1 <= k < a.len() && is_row_of(#[trigger] a[k], s[i], key);
                assert(rows[k] == a[k]);
            } else {
                assert(is_row_of(rows[rows.len() - 1], s[i], key));
            }
        }
        assert forall|k: int| 1 <= k < rows.len() implies row_of_some(#[trigger] rows[k], s, ids, key) by {
            if k < a.len() {
                assert(rows[k] == a[k]);
                assert(row_of_some(a[k], d, ids, key));
                let i = choose|i: int|
                    0 <= i < d.len() && asked_for(ids, #[trigger] d[i]) && is_row_of(a[k], d[i], key);
                assert(s[i] == d[i]);
            } else {
                assert(asked_for(ids, s[n]) && is_row_of(rows[k], s[n], key));
            }
        }
        assert(rows[0] == a[0]);
    }
}

} // verus!
