//! Import and export.
use keystash::crypto::decrypt;
use keystash::csv_format::{escape_csv_cell, escape_csv_cell_password, read_csv_records};
use keystash::db::unlock::{new_vault, seal_token};
use keystash::db::{add_secret, get_secrets, Vault};
use keystash::import::{
    classify, detect_format, export_vault_csv, extract_domain, import_bitwarden_json,
    import_brave_chrome_csv, import_drafts_with, import_firefox_csv, import_keepassxc_csv, import_keystash_csv,
    import_lastpass_csv, import_onepassword_csv, with_import_transaction, BwExport, BwFolder,
    BwItem, BwLogin, Draft, ImportFormat,
};

const NOW: &str = "2026-02-01 10:00:00.000";
const KEY: [u8; 32] = [0u8; 32];

fn vault() -> Vault {
    new_vault(seal_token(&KEY).unwrap())
}

fn text(data: &[u8]) -> String {
    String::from_utf8(decrypt(data, &KEY).unwrap()).unwrap()
}

#[test]
fn test_rfc4180_csv_import() {
    let csv_content = "\
url,username,password,httprealm
\"https://example.com\",\"my_user\",\"super,\"\"secret\"\"\",\"realm1\"
\"https://another.com\",\"user2\",\"pass\nwith\nnewlines\",\"realm2\"
";
    let mut v = vault();
    let count = import_firefox_csv(&mut v, csv_content.as_bytes(), &KEY, NOW).unwrap();
    assert_eq!(count, 2);
    let secrets = get_secrets(&v);
    assert_eq!(secrets.len(), 2);
    let s1 = secrets.iter().find(|s| s.username == "my_user").unwrap();
    assert_eq!(text(&s1.encrypted_password), "super,\"secret\"");
    let s2 = secrets.iter().find(|s| s.username == "user2").unwrap();
    assert_eq!(text(&s2.encrypted_password), "pass\nwith\nnewlines");
    assert_eq!(s1.title, "example.com");
}

#[test]
fn export_import_round_trip_preserves_formula_leading_password_and_category() {
    let mut v = vault();
    add_secret(&mut v, "Bank", "Finance", "alice", "https://bank.example", "=1+1", None, &KEY, NOW)
        .unwrap();
    let (file, n) = export_vault_csv(&v, &KEY, &None);
    assert_eq!(n, 1);
    let mut v2 = vault();
    assert_eq!(detect_format(file.as_bytes()).unwrap(), ImportFormat::KeyStashCsv);
    let count = import_keystash_csv(&mut v2, file.as_bytes(), &KEY, NOW).unwrap();
    assert_eq!(count, 1);
    let secrets = get_secrets(&v2);
    assert_eq!(secrets.len(), 1);
    assert_eq!(text(&secrets[0].encrypted_password), "=1+1");
    assert_eq!(secrets[0].category, "Finance");
}

#[test]
fn exports_quote_and_guard() {
    assert_eq!(escape_csv_cell("=1+1"), "'=1+1");
    assert_eq!(escape_csv_cell_password("=1+1"), "=1+1");
    assert_eq!(escape_csv_cell("a\"b"), "\"a\"\"b\"");
    let mut v = vault();
    add_secret(&mut v, "A\"1\"", "C,x", "u\nv", "", "p\"\r\n,", Some("n"), &KEY, NOW).unwrap();
    add_secret(&mut v, "B", "C", "u", "", "p", None, &KEY, NOW).unwrap();
    let (some, n) = export_vault_csv(&v, &KEY, &Some(vec![2]));
    assert_eq!(n, 1);
    let mut lines = some.lines();
    assert_eq!(lines.next(), Some("title,url,username,password,notes,category"));
    assert_eq!(lines.next(), Some("B,,u,p,,C"));
    assert_eq!(lines.next(), None);

    let (all, n) = export_vault_csv(&v, &KEY, &None);
    assert_eq!(n, 2);
    let (header, rows) = read_csv_records(all.as_bytes()).unwrap();
    assert_eq!(header, vec!["title", "url", "username", "password", "notes", "category"]);
    assert_eq!(rows[0], vec!["A\"1\"", "", "u\nv", "p\"\r\n,", "n", "C,x"]);
    let mut back = vault();
    assert_eq!(import_keystash_csv(&mut back, all.as_bytes(), &KEY, NOW), Ok(2));
    assert_eq!(text(&back.secrets[0].encrypted_password), "p\"\r\n,");
}

fn login(username: &str, password: &str) -> Option<BwLogin> {
    Some(BwLogin {
        username: Some(username.to_string()),
        password: Some(password.to_string()),
        uris: Some(vec![]),
    })
}

fn item(item_type: i32, name: &str, notes: Option<&str>, login: Option<BwLogin>) -> BwItem {
    BwItem {
        item_type,
        name: name.to_string(),
        folder_id: None,
        notes: notes.map(|n| n.to_string()),
        login,
    }
}

#[test]
fn bitwarden_import_skips_non_login_items_instead_of_faking_a_password() {
    let export = BwExport {
        folders: Some(vec![]),
        items: Some(vec![
            item(1, "GitHub", None, login("alice", "hunter2")),
            item(2, "Wifi recovery codes", Some("some secret text"), None),
            item(3, "Visa", None, None),
            item(4, "Passport", None, None),
        ]),
    };
    let mut v = vault();
    let (imported, skipped) = import_bitwarden_json(&mut v, &export, &KEY, NOW).unwrap();
    assert_eq!(imported, 1);
    assert_eq!(skipped, 3);
    let secrets = get_secrets(&v);
    assert_eq!(secrets.len(), 1);
    assert_eq!(secrets[0].title, "GitHub");
    assert_eq!(text(&secrets[0].encrypted_password), "hunter2");
}

#[test]
fn bitwarden_folders_become_tags() {
    let mut one = item(1, "Site", Some("n"), login("u", "p"));
    one.folder_id = Some("f1".to_string());
    if let Some(l) = one.login.as_mut() {
        l.uris = Some(vec![Some("https://site".to_string())]);
    }
    let export = BwExport {
        folders: Some(vec![BwFolder { id: Some("f1".to_string()), name: "Work".to_string() }]),
        items: Some(vec![one]),
    };
    let mut v = vault();
    assert_eq!(import_bitwarden_json(&mut v, &export, &KEY, NOW), Ok((1, 0)));
    assert_eq!(v.secrets[0].category, "Work");
    assert_eq!(v.secrets[0].url, "https://site");
    assert_eq!(text(v.secrets[0].encrypted_notes.as_ref().unwrap()), "n");
}

#[test]
fn import_transaction_rolls_back_all_rows_on_failure() {
    let mut v = vault();
    let result: Result<usize, String> = with_import_transaction(&mut v, |mut v: Vault| {
        add_secret(&mut v, "One", "Cat", "user", "", "pw1", None, &KEY, NOW)?;
        add_secret(&mut v, "Two", "Cat", "user", "", "pw2", None, &KEY, NOW)?;
        Err("simulated failure partway through the import".to_string())
    });
    assert!(result.is_err());
    assert!(get_secrets(&v).is_empty());
}

#[test]
fn import_transaction_commits_all_rows_on_success() {
    let mut v = vault();
    let result = with_import_transaction(&mut v, |mut v: Vault| {
        add_secret(&mut v, "One", "Cat", "user", "", "pw1", None, &KEY, NOW)?;
        add_secret(&mut v, "Two", "Cat", "user", "", "pw2", None, &KEY, NOW)?;
        Ok((v, 2))
    });
    assert_eq!(result, Ok(2));
    assert_eq!(get_secrets(&v).len(), 2);
}

fn draft(title: &str) -> Draft {
    Draft {
        title: title.to_string(),
        category: "Cat".to_string(),
        username: "user".to_string(),
        url: String::new(),
        password: "pw".to_string(),
        notes: None,
    }
}

#[test]
fn imports_take_the_given_identities() {
    let ids = |names: &[&str]| names.iter().map(|n| n.to_string()).collect::<Vec<String>>();
    let mut v = vault();
    let two = vec![draft("A"), draft("B")];
    assert_eq!(import_drafts_with(&mut v, &two, &ids(&["u1", "u2"]), &KEY, NOW), Ok(2));
    assert_eq!(v.secrets[0].sync_uuid, "u1");
    assert_eq!(v.secrets[1].sync_uuid, "u2");

    // A vault in use takes more, unless an identity is taken.
    let more = vec![draft("C"), draft("D")];
    let taken = "UNIQUE constraint failed: secrets.sync_uuid";
    for bad in [["u3", "u3"], ["u3", "u1"], ["u2", "u3"]] {
        let error = import_drafts_with(&mut v, &more, &ids(&bad), &KEY, NOW).unwrap_err();
        assert_eq!(error, taken);
        assert_eq!(v.secrets.len(), 2);
    }
    assert_eq!(import_drafts_with(&mut v, &more, &ids(&["u3", "u4"]), &KEY, NOW), Ok(2));
    assert_eq!(v.secrets.len(), 4);

    v.next_id = i64::MAX - 1;
    let error = import_drafts_with(&mut v, &more, &ids(&["u5", "u6"]), &KEY, NOW).unwrap_err();
    assert_eq!(error, "database or disk is full");
    assert_eq!(v.secrets.len(), 4);
}

#[test]
fn a_whole_vault_comes_back() {
    let mut v = vault();
    add_secret(&mut v, "B", "x, y", "u", "https://b", "=1+1", Some("n\nm"), &KEY, NOW).unwrap();
    add_secret(&mut v, "A", "z", "", "", "p,\"q", None, &KEY, NOW).unwrap();
    let (file, n) = export_vault_csv(&v, &KEY, &None);
    let mut w = vault();
    assert_eq!(import_keystash_csv(&mut w, file.as_bytes(), &KEY, NOW), Ok(n));
    let seen = |v: &Vault| {
        let mut all: Vec<(String, String, String, String, String, String)> = v
            .secrets
            .iter()
            .map(|s| {
                let notes = s.encrypted_notes.as_ref().map(|d| text(d)).unwrap_or_default();
                let password = text(&s.encrypted_password);
                (s.title.clone(), s.url.clone(), s.username.clone(), password, notes, s.category.clone())
            })
            .collect();
        all.sort();
        all
    };
    assert_eq!(seen(&v), seen(&w));
    // A vault in use takes the table too.
    assert_eq!(import_keystash_csv(&mut w, file.as_bytes(), &KEY, NOW), Ok(n));
    assert_eq!(w.secrets.len(), 4);
}

#[test]
fn detect_format_routes_each_supported_header_set_correctly() {
    let cases: &[(&str, ImportFormat)] = &[
        ("url,username,password,totp,extra,name,grouping,fav", ImportFormat::LastPassCsv),
        ("name,url,username,password", ImportFormat::BraveChromeCsv),
        (
            "url,username,password,httpRealm,formActionOrigin,guid,timeCreated,timeLastUsed,timePasswordChanged",
            ImportFormat::FirefoxCsv,
        ),
        ("\"Group\",\"Title\",\"Username\",\"Password\",\"URL\",\"Notes\"", ImportFormat::KeePassXcCsv),
        ("Title,Username,Password,Website,Notes", ImportFormat::OnePasswordCsv),
        ("title,url,username,password,notes,category", ImportFormat::KeyStashCsv),
    ];
    for (header, expected) in cases {
        let detected = detect_format(format!("{}\n", header).as_bytes());
        assert_eq!(detected.unwrap(), *expected, "wrong format for header {:?}", header);
    }
    assert_eq!(detect_format(b"  {\"items\": []}").unwrap(), ImportFormat::BitwardenJson);
    assert!(detect_format(b"foo,bar\n").is_err());
    assert!(detect_format(b"").is_err());
    assert_eq!(classify("{\"folders\": []", &None).unwrap(), ImportFormat::BitwardenJson);
    assert_eq!(classify("{}", &None).unwrap_err(), "Unsupported JSON export format.");
}

#[test]
fn lastpass_import_preserves_notes_and_folders() {
    let csv_content = "\
url,username,password,totp,extra,name,grouping,fav
https://bank.example.com,me,hunter2,,recovery codes: 1111 2222,Example Bank,Banking,0
";
    assert_eq!(detect_format(csv_content.as_bytes()).unwrap(), ImportFormat::LastPassCsv);
    let mut v = vault();
    let count = import_lastpass_csv(&mut v, csv_content.as_bytes(), &KEY, NOW).unwrap();
    assert_eq!(count, 1);
    let secrets = get_secrets(&v);
    assert_eq!(secrets.len(), 1);
    assert_eq!(secrets[0].title, "Example Bank");
    assert_eq!(secrets[0].category, "Banking");
    assert_eq!(text(secrets[0].encrypted_notes.as_ref().unwrap()), "recovery codes: 1111 2222");
}

#[test]
fn keystash_csv_import_preserves_category_and_notes() {
    let csv_content = "\
title,url,username,password,notes,category
GitHub,https://github.com,me,hunter2,my note,Dev
";
    assert_eq!(detect_format(csv_content.as_bytes()).unwrap(), ImportFormat::KeyStashCsv);
    let mut v = vault();
    let count = import_keystash_csv(&mut v, csv_content.as_bytes(), &KEY, NOW).unwrap();
    assert_eq!(count, 1);
    let secrets = get_secrets(&v);
    assert_eq!(secrets.len(), 1);
    assert_eq!(secrets[0].title, "GitHub");
    assert_eq!(secrets[0].category, "Dev");
    assert_eq!(secrets[0].url, "https://github.com");
    assert_eq!(text(&secrets[0].encrypted_password), "hunter2");
    assert_eq!(text(secrets[0].encrypted_notes.as_ref().unwrap()), "my note");
}

#[test]
fn onepassword_csv_without_notes_column_is_detected_and_imports() {
    let csv_content = "title,username,password,url\nGitHub,me,hunter2,https://github.com\n";
    assert_eq!(detect_format(csv_content.as_bytes()).unwrap(), ImportFormat::OnePasswordCsv);
    let mut v = vault();
    let count = import_onepassword_csv(&mut v, csv_content.as_bytes(), &KEY, NOW).unwrap();
    assert_eq!(count, 1);
    let secrets = get_secrets(&v);
    assert_eq!(secrets.len(), 1);
    assert_eq!(secrets[0].encrypted_notes, None);
}

#[test]
fn other_formats_are_read() {
    let mut v = vault();
    let brave = "name,url,username,password\n,https://www.site.example/a,u,p\n";
    assert_eq!(import_brave_chrome_csv(&mut v, brave.as_bytes(), &KEY, NOW), Ok(1));
    let keepass = "\"Group\",\"Title\",\"Username\",\"Password\",\"URL\",\"Notes\"\n\
                   \"Root/Mail\",\"T\",\"U\",\"P\",\"W\",\"N\"\n";
    assert_eq!(import_keepassxc_csv(&mut v, keepass.as_bytes(), &KEY, NOW), Ok(1));
    assert_eq!(v.secrets[1].title, "T");
    assert_eq!(text(v.secrets[1].encrypted_notes.as_ref().unwrap()), "N");

    let error = import_firefox_csv(&mut v, b"url,username\n", &KEY, NOW).unwrap_err();
    assert!(error.contains("password"), "{}", error);
    assert_eq!(v.secrets.len(), 2);
}

#[test]
fn domains_are_taken_from_urls() {
    assert_eq!(extract_domain("https://example.com/a/b"), "example.com");
    assert_eq!(extract_domain("http://www.example.com"), "example.com");
    assert_eq!(extract_domain("example.com"), "example.com");
}
