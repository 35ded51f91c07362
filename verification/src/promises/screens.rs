//! What the keys do on the screens, and what these show.
use vstd::prelude::*;
use vstd::utf8::*;

use crate::audit::AuditEntry;
use crate::config::AppConfig;
use crate::conflicts::{reveal_notes, shown, shown_opt};
use crate::crypto::{fingerprint_of, lemma_text_round_trip, opened, MAX_PLAINTEXT};
use crate::db::layout::{
    interrupted_migration_message, interrupted_rotation_message, pre_rekey_backup_path,
    pre_sqlcipher_backup_path, sibling,
};
use crate::db::records::{
    checks, ids_distinct, records, HibpCheck, RecordView, SecretRecord, Vault, VaultView,
};
use crate::db::store::find_id;
use crate::db::tags::tags_of;
use crate::forms::{
    audit_warning, get_strength_bar, handle_change_password_input, handle_form_input,
    handle_generator_input, open_add_form, open_edit_form, perform_change_password,
    readable_password, regenerate_in_place, reuse_fingerprints, save_form, shares, sharing,
    ChangeOutcome, ChangePasswordForm, ChangeResult, FormField, FormOutcome, GeneratorDialog,
    GeneratorOutcome, SecretForm,
};
use crate::generator::{hyphenated, picks, GeneratorOptions};
use crate::import::ImportFormat;
use crate::keys::{KeyCode, KeyModifiers};
use crate::lists::{lemma_filter_members, lemma_filter_pairs};
use crate::modals::{
    find_duplicate_groups, group_views, handle_confirmation_input, handle_deduplicate_input,
    handle_export_input, handle_export_type_input, handle_help_input, handle_import_input, has_twin,
    import_message, keep_one, merge_notes, other_ids, progress_percent, restamped, same_login,
    twin_groups, twins, visible_scroll, without_records, ConfirmAction, ConfirmOutcome,
    DuplicateOutcome, DuplicateScreen, ExportChoice, PathOutcome,
};
use crate::panels::{
    audit_lines, change_notice, detail_lines, duplicate_lines, form_password, lock_notice, pairs,
    score_bar, secret_rows, settings_lines, setup_notice, shown_notes, shown_password, side_lines,
    starred, Notice,
};
use crate::promises::generating::{chained, lemma_chain};
use crate::promises::records::{lemma_found, reads};
use crate::render::{
    apply_filter, handle_dashboard_input, handle_lock_input, handle_setup_input, list_tags,
    perform_setup, perform_unlock, plan_lookup, records_to_check, toggle_mark, ActiveBlock,
    DashAction, Dashboard, EntryOutcome, LockForm, LookupStep, SetupForm,
};
use crate::settings::{
    handle_settings_input, open_settings, settings_field_step, SettingsForm, SettingsOutcome,
};
use crate::strength::{check_strength, Severity};
use crate::text::{decimal, lower, occurs, quoted, texts, trimmed, unsigned_value};

verus! {

/// A form that is saved stores what its fields hold, with its tags normalized, as a new record or
/// in the one that is edited, and forgets the secrets; one that is not saved changes nothing.
pub proof fn law_saved_form_is_stored(
    form: &mut SecretForm,
    vault: &mut Vault,
    key: [u8; 32],
    now: &str,
    cap: usize,
    o: FormOutcome,
    i: int,
)
    requires
        old(vault)@.wf(),
        call_ensures(save_form, (form, vault, &Some(key), now, cap), o),
        o is Saved,
    ensures
        final(form).password@.len() == 0,
        final(form).notes@.len() == 0,
        old(form).edit_id is None ==> {
            let n = final(vault)@.secrets.last();
            &&& final(vault)@.secrets.len() == old(vault)@.secrets.len() + 1
            &&& final(vault)@.secrets.drop_last() == old(vault)@.secrets
            &&& holds_form(n, *old(form), key@, now@)
        },
        old(form).edit_id is Some ==> final(vault)@.secrets.len() == old(vault)@.secrets.len(),
        old(form).edit_id is Some && 0 <= i < old(vault)@.secrets.len() ==> {
            &&& old(vault)@.secrets[i].id == old(form).edit_id->0 ==> holds_form(
                final(vault)@.secrets[i],
                *old(form),
                key@,
                now@,
            ) && final(vault)@.secrets[i].uuid == old(vault)@.secrets[i].uuid
            &&& old(vault)@.secrets[i].id != old(form).edit_id->0 ==> final(vault)@.secrets[i]
                == old(vault)@.secrets[i]
        },
        final(vault)@.tombstones == old(vault)@.tombstones,
{
    if old(form).edit_id is None {
        assert(final(vault)@.secrets.drop_last() =~= old(vault)@.secrets);
    } else {
        let id = old(form).edit_id->0 as int;
        let v = old(vault)@;
        if 0 <= i < v.secrets.len() {
            lemma_found(v.secrets, id, i);
            if find_id(v.secrets, id) is Some {
                let f = old(form)@;
                let s = find_id(v.secrets, id)->0;
                let n = choose|n: RecordView| #[trigger]
                    crate::db::store::holds(
                        n,
                        f.title,
                        crate::db::tags::normalized(f.category),
                        f.username,
                        f.url,
                        f.password,
                        f.stored_notes(),
                        key@,
                    ) && n.updated_at == now@ && final(vault)@ == (VaultView {
                        secrets: crate::db::store::replaced(v.secrets, id, n),
                        history: crate::db::store::history_after(
                            v.history,
                            s,
                            f.password,
                            key@,
                            now@,
                            cap as nat,
                        ),
                        ..v
                    });
                assert(n.updated_at == now@);
            }
        }
    }
}

/// Whether a record holds what a form does.
pub open spec fn holds_form(n: RecordView, f: SecretForm, key: Seq<u8>, now: Seq<char>) -> bool {
    &&& n.title == f.title@
    &&& n.category == crate::db::tags::normalized(f.category@)
    &&& n.username == f.username@
    &&& n.url == f.url@
    &&& reads(n.password, key, f.password@)
    &&& f.notes@.len() > 0 ==> (n.notes matches Some(d) && reads(d, key, f.notes@))
    &&& f.notes@.len() == 0 ==> n.notes is None
    &&& n.updated_at == now
}

/// A form is saved only with a title, a tag and a password; without one of them, or without the
/// key, nothing is stored and nothing is lost.
pub proof fn law_incomplete_form_is_kept(
    form: &mut SecretForm,
    vault: &mut Vault,
    key: &Option<[u8; 32]>,
    now: &str,
    cap: usize,
    o: FormOutcome,
)
    requires
        call_ensures(save_form, (form, vault, key, now, cap), o),
    ensures
        trimmed(old(form).title@).len() == 0 || trimmed(old(form).password@).len() == 0
            || crate::db::tags::normalized(old(form).category@).len() == 0 ==> (
        o matches FormOutcome::Failed { error } && error@
            == "Title, at least one Tag, and Password are required!"@),
        *key is None ==> !(o is Saved),
        !(o is Saved) ==> *final(vault) == *old(vault) && final(form)@ == old(form)@,
{
}

/// Typing goes to the field that has the focus and to no other; the tab key moves the focus on,
/// the back tab back, and the escape key forgets the secrets and leaves.
pub proof fn law_typing_goes_to_the_focused_field(
    form: &mut SecretForm,
    vault: &mut Vault,
    key: &Option<[u8; 32]>,
    code: KeyCode,
    m: KeyModifiers,
    options: &GeneratorOptions,
    now: &str,
    cap: usize,
    o: FormOutcome,
)
    requires
        call_ensures(handle_form_input, (form, vault, key, code, m, options, now, cap), o),
        !m.control,
        !m.alt,
    ensures
        code is Char ==> {
            let c = code->Char_0;
            &&& final(form).title@ == (if old(form).active is Title {
                old(form).title@.push(c)
            } else {
                old(form).title@
            })
            &&& final(form).category@ == (if old(form).active is Category {
                old(form).category@.push(c)
            } else {
                old(form).category@
            })
            &&& final(form).username@ == (if old(form).active is Username {
                old(form).username@.push(c)
            } else {
                old(form).username@
            })
            &&& final(form).url@ == (if old(form).active is Url {
                old(form).url@.push(c)
            } else {
                old(form).url@
            })
            &&& final(form).password@ == (if old(form).active is Password {
                old(form).password@.push(c)
            } else {
                old(form).password@
            })
            &&& final(form).notes@ == (if old(form).active is Notes {
                old(form).notes@.push(c)
            } else {
                old(form).notes@
            })
            &&& final(form).active == old(form).active
            &&& final(form).edit_id == old(form).edit_id
        },
        code == KeyCode::Esc ==> o is Cancelled && final(form).password@.len() == 0
            && final(form).notes@.len() == 0,
        code == KeyCode::Tab ==> final(form).active == (match old(form).active {
            FormField::Title => FormField::Category,
            FormField::Category => FormField::Username,
            FormField::Username => FormField::Url,
            FormField::Url => FormField::Password,
            FormField::Password => FormField::Notes,
            FormField::Notes => FormField::Title,
        }),
        code != KeyCode::Enter ==> *final(vault) == *old(vault),
{
    let a = old(form)@;
    let b = final(form)@;
    assert(a.active == old(form).active && b.active == final(form).active);
    assert(b.title == final(form).title@ && b.category == final(form).category@);
    assert(b.username == final(form).username@ && b.url == final(form).url@);
    assert(b.password == final(form).password@ && b.notes == final(form).notes@);
    assert(b.edit_id == final(form).edit_id && a.edit_id == old(form).edit_id);
}

/// A form to edit a record shows what the record holds, and names it; a form to add one is
/// empty.
pub proof fn law_edit_form_shows_the_record(
    r: &SecretRecord,
    key: [u8; 32],
    f: SecretForm,
    new: SecretForm,
    password: Seq<char>,
    notes: Seq<char>,
)
    requires
        call_ensures(open_edit_form, (r, &Some(key)), f),
        call_ensures(open_add_form, (), new),
        reads(r.encrypted_password@, key@, password),
        r.encrypted_notes matches Some(d) ==> reads(d@, key@, notes),
        r.encrypted_notes is None ==> notes.len() == 0,
    ensures
        f.title@ == r.title@,
        f.category@ == r.category@,
        f.username@ == r.username@,
        f.url@ == r.url@,
        f.password@ == password,
        f.notes@ == notes,
        f.edit_id == Some(r.id),
        new.edit_id is None,
        new.title@.len() == 0 && new.category@.len() == 0 && new.username@.len() == 0
            && new.url@.len() == 0 && new.password@.len() == 0 && new.notes@.len() == 0,
{
    lemma_text_round_trip(password);
    lemma_text_round_trip(notes);
    assert(f@.edit_id == f.edit_id && new@.edit_id == new.edit_id);
    assert(f@.title == f.title@ && f@.category == f.category@ && f@.username == f.username@);
    assert(f@.url == f.url@ && f@.password == f.password@ && f@.notes == f.notes@);
    assert(new@.title == new.title@ && new@.category == new.category@ && new@.username
        == new.username@);
    assert(new@.url == new.url@ && new@.password == new.password@ && new@.notes == new.notes@);
    if r.encrypted_notes is None {
        assert(notes =~= Seq::<char>::empty());
    }
}

/// The master password is changed only where all three fields are filled, the new password was
/// typed twice the same, and the vault is open; each refusal says which it was.
pub proof fn law_password_change_is_confirmed(
    f: &mut ChangePasswordForm,
    unlocked: bool,
    o: ChangeOutcome,
)
    requires
        call_ensures(handle_change_password_input, (f, KeyCode::Enter, unlocked), o),
    ensures
        o == ChangeOutcome::Change <==> old(f).current@.len() > 0 && old(f).new@.len() > 0
            && old(f).confirm@.len() > 0 && old(f).new@ == old(f).confirm@ && unlocked,
        o == ChangeOutcome::Change || o == ChangeOutcome::Stay,
        final(f).current@ == old(f).current@,
        final(f).new@ == old(f).new@,
{
    let a = old(f)@;
    let b = final(f)@;
    assert(b.current == final(f).current@ && b.new == final(f).new@ && b.confirm
        == final(f).confirm@);
}

/// A change that went through clears the form; one that did not says why.
pub proof fn law_password_change_is_reported(f: &mut ChangePasswordForm, r: &ChangeResult, done: bool)
    requires
        call_ensures(perform_change_password, (f, r), done),
    ensures
        done <==> *r is Changed,
        done ==> final(f).current@.len() == 0 && final(f).new@.len() == 0 && final(f).confirm@.len() == 0,
        *r is WrongCurrent ==> final(f).error@ == "Incorrect current password!"@,
        *r is Locked ==> final(f).error@ == "Vault is locked!"@,
        *r matches ChangeResult::Failed { error } ==> final(f).error@ == error@,
{
    let b = final(f)@;
    assert(b.current == final(f).current@ && b.new == final(f).new@ && b.confirm
        == final(f).confirm@ && b.error == final(f).error@);
}

/// A confirmation deletes on a yes only: the one record in question, or all that are marked.
pub proof fn law_deletion_needs_a_yes(
    vault: &mut Vault,
    marked: &mut Vec<i64>,
    code: KeyCode,
    action: ConfirmAction,
    now: &str,
    o: ConfirmOutcome,
    s: RecordView,
)
    requires
        old(vault)@.wf(),
        call_ensures(handle_confirmation_input, (vault, marked, code, action, now), o),
        old(vault)@.secrets.contains(s),
    ensures
        !(code == KeyCode::Char('y') || code == KeyCode::Enter) ==> *final(vault) == *old(vault) && o
            != ConfirmOutcome::Confirmed,
        code == KeyCode::Char('y') || code == KeyCode::Enter ==> o == ConfirmOutcome::Confirmed,
        (code == KeyCode::Char('y') || code == KeyCode::Enter) && (action matches ConfirmAction::DeleteSingle {
            id,
        }) ==> (final(vault)@.secrets.contains(s) <==> s.id != action->id),
        (code == KeyCode::Char('y') || code == KeyCode::Enter) && action == ConfirmAction::DeleteMarked
            ==> (final(vault)@.secrets.contains(s) <==> !(exists|k: int|
            0 <= k < old(marked)@.len() && #[trigger] old(marked)@[k] == s.id)),
        (code == KeyCode::Char('n') || code == KeyCode::Esc) ==> o == ConfirmOutcome::Cancelled,
{
    let v = old(vault)@;
    if code == KeyCode::Char('y') || code == KeyCode::Enter {
        match action {
            ConfirmAction::DeleteSingle { id } => {
                lemma_without(v, id as int, now@, s);
            },
            ConfirmAction::DeleteMarked => {
                lemma_without_many(v, old(marked)@, now@, s);
            },
        }
    }
}

proof fn lemma_without(v: VaultView, id: int, now: Seq<char>, s: RecordView)
    requires
        ids_distinct(v.secrets),
    ensures
        crate::db::store::without_record(v, id, now).secrets.contains(s) <==> v.secrets.contains(s)
            && s.id != id,
{
    let w = crate::db::store::without_record(v, id, now);
    lemma_filter_members(v.secrets, |x: RecordView| x.id != id);
    if find_id(v.secrets, id) is None && v.secrets.contains(s) {
        let i = choose|i: int| 0 <= i < v.secrets.len() && v.secrets[i] == s;
        lemma_found(v.secrets, id, i);
    }
}

proof fn lemma_without_keeps_ids(v: VaultView, id: int, now: Seq<char>)
    requires
        ids_distinct(v.secrets),
    ensures
        ids_distinct(crate::db::store::without_record(v, id, now).secrets),
{
    let rel = |a: RecordView, b: RecordView| a.id != b.id;
    assert forall|i: int, j: int| 0 <= i < j < v.secrets.len() implies rel(
        #[trigger] v.secrets[i],
        #[trigger] v.secrets[j],
    ) by {}
    let p = |x: RecordView| x.id != id;
    lemma_filter_pairs(v.secrets, p, rel);
    assert forall|i: int, j: int| 0 <= i < j < v.secrets.filter(p).len() implies (
    #[trigger] v.secrets.filter(p)[i]).id != (#[trigger] v.secrets.filter(p)[j]).id by {
        assert(rel(v.secrets.filter(p)[i], v.secrets.filter(p)[j]));
    }
}

/// Deleting records one after the other deletes those with the given numbers.
pub proof fn lemma_without_many(v: VaultView, ids: Seq<i64>, now: Seq<char>, s: RecordView)
    requires
        ids_distinct(v.secrets),
    ensures
        ids_distinct(without_records(v, ids, now).secrets),
        without_records(v, ids, now).secrets.contains(s) <==> v.secrets.contains(s) && !(exists|k: int|
            0 <= k < ids.len() && #[trigger] ids[k] == s.id),
    decreases ids.len(),
{
    if ids.len() > 0 {
        let d = ids.drop_last();
        let w = without_records(v, d, now);
        lemma_without_many(v, d, now, s);
        lemma_without(w, ids.last() as int, now, s);
        lemma_without_keeps_ids(w, ids.last() as int, now);
        let n = ids.len() - 1;
        if exists|k: int| 0 <= k < ids.len() && #[trigger] ids[k] == s.id {
            let k = choose|k: int| 0 <= k < ids.len() && #[trigger] ids[k] == s.id;
            if k < n {
                assert(d[k] == s.id);
            }
        }
        if exists|k: int| 0 <= k < d.len() && #[trigger] d[k] == s.id {
            let k = choose|k: int| 0 <= k < d.len() && #[trigger] d[k] == s.id;
            assert(ids[k] == s.id);
        }
        if ids.last() == s.id {
            assert(ids[n] == s.id);
        }
    }
}

/// On the duplicates screen the selected record of a group is kept, and the others go.
pub proof fn law_chosen_duplicate_is_kept(
    vault: &mut Vault,
    g: &Vec<SecretRecord>,
    keep: usize,
    now: &str,
    s: RecordView,
)
    requires
        old(vault)@.wf(),
        keep < g@.len(),
        call_ensures(keep_one, (vault, g, keep, now), ()),
        old(vault)@.secrets.contains(s),
    ensures
        s.id == g@[keep as int].id ==> final(vault)@.secrets.contains(
            RecordView { updated_at: now@, ..s },
        ),
        s.id != g@[keep as int].id && (exists|k: int|
            0 <= k < g@.len() && (#[trigger] g@[k]).id == s.id) ==> !final(vault)@.secrets.contains(s),
        (forall|k: int| 0 <= k < g@.len() ==> (#[trigger] g@[k]).id != s.id)
            ==> final(vault)@.secrets.contains(s),
{
    lemma_kept_one(*old(vault), g@, keep as int, now@, s);
}

proof fn lemma_other_ids(g: Seq<SecretRecord>, keep: int, id: int)
    requires
        i64::MIN <= id <= i64::MAX,
    ensures
        (exists|k: int| 0 <= k < other_ids(records(g), keep).len() && #[trigger] other_ids(
            records(g),
            keep,
        )[k] == id) <==> id != keep && exists|k: int| 0 <= k < g.len() && (#[trigger] g[k]).id == id,
    decreases g.len(),
{
    let r = records(g);
    let o = other_ids(r, keep);
    if g.len() > 0 {
        let d = g.drop_last();
        assert(records(d) =~= r.drop_last());
        lemma_other_ids(d, keep, id);
        let p = other_ids(records(d), keep);
        let n = g.len() - 1;
        assert(r.last() == g[n]@);
        if exists|k: int| 0 <= k < o.len() && #[trigger] o[k] == id {
            let k = choose|k: int| 0 <= k < o.len() && #[trigger] o[k] == id;
            if k < p.len() {
                assert(p[k] == id);
                let j = choose|j: int| 0 <= j < d.len() && (#[trigger] d[j]).id == id;
                assert(g[j].id == id);
            } else {
                assert(g[n].id == id);
            }
        }
        if id != keep && exists|k: int| 0 <= k < g.len() && (#[trigger] g[k]).id == id {
            let k = choose|k: int| 0 <= k < g.len() && (#[trigger] g[k]).id == id;
            if k < n {
                assert(d[k].id == id);
                let j = choose|j: int| 0 <= j < p.len() && #[trigger] p[j] == id;
                assert(o[j] == id);
            } else {
                assert(o[o.len() - 1] == id);
            }
        }
    }
}

/// On the duplicates screen the enter key keeps the selected record of the selected group and
/// deletes the others of it; moving about changes nothing.
pub proof fn law_enter_keeps_the_selected_duplicate(
    s: &mut DuplicateScreen,
    vault: &mut Vault,
    key: &Option<[u8; 32]>,
    code: KeyCode,
    now: &str,
    cap: usize,
    o: DuplicateOutcome,
    x: RecordView,
    g: Seq<SecretRecord>,
    id: i64,
)
    requires
        old(s).wf(),
        old(vault)@.wf(),
        old(s).groups@.len() > 0,
        call_ensures(handle_deduplicate_input, (s, vault, key, code, now, cap), o),
        g == old(s).groups@[old(s).group as int]@,
        id == g[old(s).item as int].id,
        old(vault)@.secrets.contains(x),
    ensures
        code == KeyCode::Enter && x.id == id ==> final(vault)@.secrets.contains(
            RecordView { updated_at: now@, ..x },
        ),
        code == KeyCode::Enter && x.id != id && (exists|k: int|
            0 <= k < g.len() && (#[trigger] g[k]).id == x.id) ==> !final(vault)@.secrets.contains(x),
        code == KeyCode::Enter && (forall|k: int| 0 <= k < g.len() ==> (#[trigger] g[k]).id != x.id)
            ==> final(vault)@.secrets.contains(x),
        code != KeyCode::Enter && code != KeyCode::Char('m') ==> *final(vault) == *old(vault),
        code == KeyCode::Esc || code == KeyCode::Char('q') ==> o == DuplicateOutcome::Close,
{
    if code == KeyCode::Enter {
        lemma_kept_one(*old(vault), g, old(s).item as int, now@, x);
    }
}

proof fn lemma_kept_one(vault: Vault, g: Seq<SecretRecord>, keep: int, now: Seq<char>, s: RecordView)
    requires
        vault@.wf(),
        0 <= keep < g.len(),
        vault@.secrets.contains(s),
    ensures
        ({
            let f = crate::modals::kept_one(vault@, records(g), keep, now);
            &&& s.id == g[keep].id ==> f.secrets.contains(RecordView { updated_at: now, ..s })
            &&& s.id != g[keep].id && (exists|k: int| 0 <= k < g.len() && (#[trigger] g[k]).id == s.id)
                ==> !f.secrets.contains(s)
            &&& (forall|k: int| 0 <= k < g.len() ==> (#[trigger] g[k]).id != s.id) ==> f.secrets.contains(s)
        }),
{
    let v = vault@;
    let r = records(g);
    let id = r[keep].id;
    assert(r[keep] == g[keep]@);
    let ids = other_ids(r, id);
    let w = without_records(v, ids, now);
    let f = restamped(w, id, now);
    lemma_without_many(v, ids, now, s);
    lemma_with_id_in_range(vault, s);
    lemma_other_ids(g, id, s.id);
    if w.secrets.contains(s) {
        let j = choose|j: int| 0 <= j < w.secrets.len() && w.secrets[j] == s;
        lemma_found(w.secrets, id, j);
        if s.id == id {
            assert(f.secrets[j] == (RecordView { updated_at: now, ..s }));
        } else if find_id(w.secrets, id) is Some {
            assert(f.secrets[j] == s);
        }
    }
    if exists|k: int| 0 <= k < g.len() && (#[trigger] g[k]).id == s.id {
        if s.id != id {
            assert(!w.secrets.contains(s));
            if f.secrets.contains(s) {
                let j = choose|j: int| 0 <= j < f.secrets.len() && f.secrets[j] == s;
                assert(w.secrets[j] == s);
                assert(w.secrets.contains(s));
            }
        }
    }
}

proof fn lemma_with_id_in_range(vault: Vault, s: RecordView)
    requires
        vault@.secrets.contains(s),
    ensures
        i64::MIN <= s.id <= i64::MAX,
{
    let i = choose|i: int| 0 <= i < vault@.secrets.len() && vault@.secrets[i] == s;
    assert(s == vault.secrets@[i]@);
}

/// Merging the notes of duplicates first adds the others' to those of the kept record, each with
/// a heading; its password stays, and so does every other record.
pub proof fn law_notes_of_duplicates_are_merged(
    vault: &mut Vault,
    g: &Vec<SecretRecord>,
    keep: usize,
    k: [u8; 32],
    now: &str,
    cap: usize,
    i: int,
    password: Seq<char>,
    own: Seq<char>,
    other: Seq<char>,
)
    requires
        old(vault)@.wf(),
        g@.len() == 2,
        keep < 2,
        call_ensures(merge_notes, (vault, g, keep, &Some(k), now, cap), ()),
        0 <= i < old(vault)@.secrets.len(),
        reads(g@[keep as int].encrypted_password@, k@, password),
        own == shown_opt(g@[keep as int]@.notes, k@),
        other == shown_opt(g@[1 - keep]@.notes, k@),
        other.len() > 0,
        encode_utf8(password).len() <= MAX_PLAINTEXT,
        own.len() > 0 ==> encode_utf8(own + "\n---\n"@ + ("Merged from duplicate: "@ + other)).len()
            <= MAX_PLAINTEXT,
        own.len() == 0 ==> encode_utf8("Merged from duplicate: "@ + other).len() <= MAX_PLAINTEXT,
    ensures
        old(vault)@.secrets[i].id == g@[keep as int].id ==> {
            let n = final(vault)@.secrets[i];
            &&& reads(n.password, k@, password)
            &&& n.title == g@[keep as int].title@
            &&& n.username == g@[keep as int].username@
            &&& n.url == g@[keep as int].url@
            &&& n.category == g@[keep as int].category@
            &&& n.notes is Some
            &&& own.len() > 0 ==> reads(
                n.notes->0,
                k@,
                own + "\n---\n"@ + ("Merged from duplicate: "@ + other),
            )
            &&& own.len() == 0 ==> reads(n.notes->0, k@, "Merged from duplicate: "@ + other)
        },
        old(vault)@.secrets[i].id != g@[keep as int].id ==> final(vault)@.secrets[i]
            == old(vault)@.secrets[i],
{
    let r = records(g@);
    let v = old(vault)@;
    let m = keep as int;
    assert(r[0] == g@[0]@ && r[1] == g@[1]@);
    lemma_text_round_trip(password);
    let extra = "Merged from duplicate: "@ + other;
    let all = if own.len() > 0 {
        own + "\n---\n"@ + extra
    } else {
        extra
    };
    lemma_two_notes(r, m, k@);
    reveal_strlit("Merged from duplicate: ");
    assert(all.len() > 0);
    let notes = crate::modals::nonempty(all);
    assert(own.len() == 0 ==> own + extra =~= extra);
    assert(crate::modals::joined_notes(r, m, k@, 2) == all);
    assert(shown(r[m].password, k@) == password);
    assert(crate::db::store::storable(password, notes));
    let id = r[m].id;
    lemma_found(v.secrets, id, i);
    if find_id(v.secrets, id) is Some {
        let s = find_id(v.secrets, id)->0;
        let n = choose|n: RecordView| #[trigger]
            crate::db::store::holds(
                n,
                r[m].title,
                r[m].category,
                r[m].username,
                r[m].url,
                password,
                notes,
                k@,
            ) && n.updated_at == now@ && final(vault)@ == (VaultView {
                secrets: crate::db::store::replaced(v.secrets, id, n),
                history: crate::db::store::history_after(
                    v.history,
                    s,
                    password,
                    k@,
                    now@,
                    cap as nat,
                ),
                ..v
            });
        assert(n.updated_at == now@);
    }
}

proof fn lemma_two_notes(r: Seq<RecordView>, m: int, k: Seq<u8>)
    requires
        r.len() == 2,
        0 <= m < 2,
        shown_opt(r[1 - m].notes, k).len() > 0,
    ensures
        ({
            let own = shown_opt(r[m].notes, k);
            let extra = "Merged from duplicate: "@ + shown_opt(r[1 - m].notes, k);
            crate::modals::joined_notes(r, m, k, 2) == (if own.len() > 0 {
                own + "\n---\n"@
            } else {
                own
            }) + extra
        }),
{
    let own = shown_opt(r[m].notes, k);
    assert(crate::modals::joined_notes(r, m, k, 0) == own);
    let one = crate::modals::joined_notes(r, m, k, 1);
    if m == 0 {
        assert(one == own);
    } else {
        assert(one == (if own.len() > 0 {
            own + "\n---\n"@
        } else {
            own
        }) + ("Merged from duplicate: "@ + shown_opt(r[0].notes, k)));
        assert(crate::modals::joined_notes(r, m, k, 2) == one);
    }
}

/// The two sides of a conflict show the version that they are of, and mark what differs from the
/// last common version.
pub proof fn law_conflict_sides_show_their_version(
    s: &SecretRecord,
    base: SecretRecord,
    key: &[u8; 32],
    v: Vec<(String, String, bool)>,
)
    requires
        call_ensures(side_lines, (s, &Some(base), key), v),
    ensures
        v@.len() == 3,
        v@[0].1@ == s.url@,
        v@[1].1@ == shown(s.encrypted_password@, key@),
        v@[2].1@ == shown_opt(s@.notes, key@),
        v@[0].2 <==> s.url@ != base.url@,
        v@[1].2 <==> shown(s.encrypted_password@, key@) != shown(base.encrypted_password@, key@),
        v@[2].2 <==> shown_opt(s@.notes, key@) != shown_opt(base@.notes, key@),
{
    let t = crate::panels::marked_pairs(v@);
    assert(t.len() == v@.len());
    assert(t[0] == (v@[0].0@, v@[0].1@, v@[0].2));
    assert(t[1] == (v@[1].0@, v@[1].1@, v@[1].2));
    assert(t[2] == (v@[2].0@, v@[2].1@, v@[2].2));
}

/// The list shows the titles, with a cross at those that are marked.
pub proof fn law_list_shows_titles_and_marks(d: &Dashboard, rows: Vec<String>, i: int)
    requires
        call_ensures(secret_rows, (d,), rows),
        0 <= i < d.shown@.len(),
    ensures
        rows@.len() == d.shown@.len(),
        d.marked@.contains(d.shown@[i].id) ==> rows@[i]@ == "  [x] "@ + d.shown@[i].title@,
        !d.marked@.contains(d.shown@[i].id) ==> rows@[i]@ == "  [ ] "@ + d.shown@[i].title@,
{
    let t = texts(rows@);
    let s = records(d.shown@);
    let ids = crate::panels::ids_in(d.marked@);
    assert(t.len() == rows@.len() && s.len() == d.shown@.len());
    assert(t[i] == rows@[i]@ && s[i] == d.shown@[i]@);
    if d.marked@.contains(d.shown@[i].id) {
        let k = choose|k: int| 0 <= k < d.marked@.len() && d.marked@[k] == d.shown@[i].id;
        assert(ids[k] == s[i].id);
    }
    if ids.contains(s[i].id) {
        let k = choose|k: int| 0 <= k < ids.len() && ids[k] == s[i].id;
        assert(d.marked@[k] == d.shown@[i].id);
    }
    reveal_strlit("  ");
    reveal_strlit("[x] ");
    reveal_strlit("[ ] ");
    reveal_strlit("  [x] ");
    reveal_strlit("  [ ] ");
    assert("  "@ + "[x] "@ =~= "  [x] "@);
    assert("  "@ + "[ ] "@ =~= "  [ ] "@);
}

/// In the generator the keys `1`, `2` and `3` switch capitals, digits and symbols, and the arrows
/// change the length, or the number of words, by one; `c` copies what is shown.
pub proof fn law_generator_keys_change_their_option(
    d: &mut GeneratorDialog,
    key: KeyCode,
    list: &Vec<String>,
    r: (GeneratorOutcome, GeneratorOptions),
)
    requires
        call_ensures(handle_generator_input, (d, key, list), r),
    ensures
        key == KeyCode::Char('1') ==> r.1 == (GeneratorOptions {
            use_uppercase: !old(d).options.use_uppercase,
            ..old(d).options
        }) && r.0 == GeneratorOutcome::Save,
        key == KeyCode::Char('2') ==> r.1 == (GeneratorOptions {
            use_numbers: !old(d).options.use_numbers,
            ..old(d).options
        }) && r.0 == GeneratorOutcome::Save,
        key == KeyCode::Char('3') ==> r.1 == (GeneratorOptions {
            use_symbols: !old(d).options.use_symbols,
            ..old(d).options
        }) && r.0 == GeneratorOutcome::Save,
        key == KeyCode::Right && !old(d).passphrase_mode && old(d).options.length < 256 ==> r.1
            == (GeneratorOptions {
            length: (old(d).options.length + 1) as usize,
            ..old(d).options
        }),
        key == KeyCode::Left && !old(d).passphrase_mode && old(d).options.length > 4 ==> r.1
            == (GeneratorOptions {
            length: (old(d).options.length - 1) as usize,
            ..old(d).options
        }),
        key == KeyCode::Right && old(d).passphrase_mode && old(d).words < 12 ==> final(d).words
            == old(d).words + 1,
        key == KeyCode::Left && old(d).passphrase_mode && old(d).words > 3 ==> final(d).words
            == old(d).words - 1,
        key == KeyCode::Char('w') ==> final(d).passphrase_mode != old(d).passphrase_mode,
        key == KeyCode::Char('c') ==> r.0 == GeneratorOutcome::Copy && final(d).password@
            == old(d).password@,
        key == KeyCode::Esc ==> r.0 == GeneratorOutcome::Close && final(d).password@.len() == 0,
        key != KeyCode::Char('w') ==> final(d).passphrase_mode == old(d).passphrase_mode,
{
}

/// The arrows move the selection by one, and neither above the first nor below the last.
pub proof fn law_arrows_move_the_selection(
    d: &mut Dashboard,
    code: KeyCode,
    no_sync: bool,
    configured: bool,
    a: DashAction,
)
    requires
        call_ensures(handle_dashboard_input, (d, code, no_sync, configured), a),
        !old(d).searching,
        old(d).selected < old(d).shown@.len(),
        old(d).selected_category < old(d).categories@.len(),
    ensures
        code == KeyCode::Down && old(d).active is Secrets ==> final(d).selected == (if old(d).selected + 1
            < old(d).shown@.len() {
            old(d).selected + 1
        } else {
            old(d).selected as int
        }),
        code == KeyCode::Up && old(d).active is Secrets ==> final(d).selected == (if old(d).selected > 0 {
            old(d).selected - 1
        } else {
            0
        }),
        code == KeyCode::Down && old(d).active is Categories ==> final(d).selected_category == (if old(
            d,
        ).selected_category + 1 < old(d).categories@.len() {
            old(d).selected_category + 1
        } else {
            old(d).selected_category as int
        }),
        code == KeyCode::Up && old(d).active is Categories && old(d).selected_category > 0
            ==> final(d).selected_category == old(d).selected_category - 1 && a == DashAction::Filter,
        code == KeyCode::Tab ==> final(d).active == (match old(d).active {
            ActiveBlock::Categories => ActiveBlock::Secrets,
            ActiveBlock::Secrets => ActiveBlock::Details,
            ActiveBlock::Details => ActiveBlock::Categories,
        }),
        code == KeyCode::Esc ==> a == DashAction::Quit,
{
    let v = old(d)@;
    let w = final(d)@;
    assert(v.selected == old(d).selected && w.selected == final(d).selected);
    assert(v.shown.len() == old(d).shown@.len() && v.categories.len() == old(d).categories@.len());
    assert(v.selected_category == old(d).selected_category && w.selected_category
        == final(d).selected_category);
    assert(v.active == old(d).active && w.active == final(d).active);
    assert(v.searching == old(d).searching);
}

/// Digits go to the number that has the focus, and to no other setting; the first one replaces
/// what was there, and the backspace key takes the last one away.
pub proof fn law_digits_go_to_the_focused_number(f: &mut SettingsForm, c: char, o: SettingsOutcome)
    requires
        call_ensures(handle_settings_input, (f, KeyCode::Char(c)), o),
        '0' as int <= c as int <= '9' as int,
    ensures
        final(f).idle_timeout@ == (if old(f).active != 0 {
            old(f).idle_timeout@
        } else if old(f).touched {
            old(f).idle_timeout@.push(c)
        } else {
            seq![c]
        }),
        final(f).clipboard_clear@ == (if old(f).active != 1 {
            old(f).clipboard_clear@
        } else if old(f).touched {
            old(f).clipboard_clear@.push(c)
        } else {
            seq![c]
        }),
        final(f).gen_length@ == (if old(f).active != 3 {
            old(f).gen_length@
        } else if old(f).touched {
            old(f).gen_length@.push(c)
        } else {
            seq![c]
        }),
        final(f).history_retention@ == (if old(f).active != 8 {
            old(f).history_retention@
        } else if old(f).touched {
            old(f).history_retention@.push(c)
        } else {
            seq![c]
        }),
        final(f).auto_sync == old(f).auto_sync,
        final(f).gen_symbols == old(f).gen_symbols,
        final(f).gen_numbers == old(f).gen_numbers,
        final(f).gen_uppercase == old(f).gen_uppercase,
        final(f).gen_lowercase == old(f).gen_lowercase,
        o is Stay,
{
    let v = old(f)@;
    let w = final(f)@;
    assert(w.auto_sync == final(f).auto_sync && w.gen_lowercase == final(f).gen_lowercase);
    assert(w.gen_uppercase == final(f).gen_uppercase && w.gen_numbers == final(f).gen_numbers);
    assert(w.gen_symbols == final(f).gen_symbols);
    assert(w.idle_timeout == final(f).idle_timeout@ && w.clipboard_clear
        == final(f).clipboard_clear@);
    assert(w.gen_length == final(f).gen_length@ && w.history_retention
        == final(f).history_retention@);
    assert(v.active == old(f).active && v.touched == old(f).touched);
    assert(v.idle_timeout == old(f).idle_timeout@ && v.clipboard_clear == old(f).clipboard_clear@);
    assert(v.gen_length == old(f).gen_length@ && v.history_retention == old(f).history_retention@);
    assert(v.auto_sync == old(f).auto_sync && v.gen_lowercase == old(f).gen_lowercase);
    assert(v.gen_uppercase == old(f).gen_uppercase && v.gen_numbers == old(f).gen_numbers);
    assert(v.gen_symbols == old(f).gen_symbols);
}

/// Each setting is shown under its name, and the one with the focus is marked.
pub proof fn law_settings_are_shown_under_their_names(f: &SettingsForm, v: Vec<(String, String, bool)>)
    requires
        call_ensures(settings_lines, (f,), v),
    ensures
        v@.len() == 9,
        v@[0].1@ == f.idle_timeout@ && (v@[0].2 <==> f.active == 0),
        v@[1].1@ == f.clipboard_clear@ && (v@[1].2 <==> f.active == 1),
        v@[2].1@ == (if f.auto_sync {
            "Yes [Space to toggle]"@
        } else {
            "No [Space to toggle]"@
        }),
        v@[3].1@ == f.gen_length@ && (v@[3].2 <==> f.active == 3),
        v@[8].1@ == f.history_retention@ && (v@[8].2 <==> f.active == 8),
{
    let t = crate::panels::marked_pairs(v@);
    assert(t.len() == v@.len());
    assert(t[0] == (v@[0].0@, v@[0].1@, v@[0].2));
    assert(t[1] == (v@[1].0@, v@[1].1@, v@[1].2));
    assert(t[2] == (v@[2].0@, v@[2].1@, v@[2].2));
    assert(t[3] == (v@[3].0@, v@[3].1@, v@[3].2));
    assert(t[8] == (v@[8].0@, v@[8].1@, v@[8].2));
}

/// A password that is asked for in the form is made to the options, and goes to the password
/// field.
pub proof fn law_form_generates_into_its_password(
    form: &mut SecretForm,
    vault: &mut Vault,
    key: &Option<[u8; 32]>,
    m: KeyModifiers,
    options: &GeneratorOptions,
    now: &str,
    cap: usize,
    o: FormOutcome,
)
    requires
        call_ensures(
            handle_form_input,
            (form, vault, key, KeyCode::Char('g'), m, options, now, cap),
            o,
        ),
        m.control,
    ensures
        *final(vault) == *old(vault),
        final(form).title@ == old(form).title@,
        final(form).notes@ == old(form).notes@,
        final(form).username@ == old(form).username@,
        options.use_lowercase && 4 <= options.length <= 256 ==> final(form).password@.len()
            == options.length,
{
    let a = old(form)@;
    let b = final(form)@;
    assert(b.title == final(form).title@ && b.notes == final(form).notes@ && b.username
        == final(form).username@ && b.password == final(form).password@);
    assert(a.title == old(form).title@ && a.notes == old(form).notes@ && a.username
        == old(form).username@);
    if options.use_lowercase {
        assert(crate::generator::selected(*options).len() > 0);
    }
}

/// Two records are duplicates where they have the same username and the same title, or the same
/// address; the groups hold the duplicates of a record and nothing else.
pub proof fn law_duplicates_share_their_login(
    all: &Vec<SecretRecord>,
    out: Vec<Vec<SecretRecord>>,
    i: int,
    j: int,
)
    requires
        call_ensures(find_duplicate_groups, (all,), out),
    ensures
        0 <= i < j < all@.len() && all@[i].username@ == all@[j].username@ && (all@[i].title@
            == all@[j].title@ || (all@[i].url@.len() > 0 && all@[i].url@ == all@[j].url@)) ==> out@.len()
            > 0,
        (forall|a: int, b: int|
            0 <= a < b < all@.len() ==> (#[trigger] all@[a]).username@ != (#[trigger] all@[b]).username@)
            ==> out@.len() == 0,
{
    let s = records(all@);
    let n = s.len() as int;
    assert(group_views(out@).len() == out@.len());
    if 0 <= i < j < all@.len() && all@[i].username@ == all@[j].username@ && (all@[i].title@
        == all@[j].title@ || (all@[i].url@.len() > 0 && all@[i].url@ == all@[j].url@)) {
        assert(s[i] == all@[i]@ && s[j] == all@[j]@);
        assert(same_login(s[i], s[j]));
        lemma_groups_found(s, i, j, n);
    }
    if forall|a: int, b: int|
        0 <= a < b < all@.len() ==> (#[trigger] all@[a]).username@ != (#[trigger] all@[b]).username@ {
        assert forall|a: int, b: int| 0 <= a < b < s.len() implies (#[trigger] s[a]).username != (
        #[trigger] s[b]).username by {
            assert(s[a] == all@[a]@ && s[b] == all@[b]@);
        }
        lemma_no_groups(s, n);
    }
}

proof fn lemma_twins_grow(s: Seq<RecordView>, r: RecordView, n: int)
    requires
        0 <= n <= s.len(),
    ensures
        ({
            let p = |x: RecordView| same_login(r, x);
            s.take(n).filter(p).len() <= s.filter(p).len()
        }),
    decreases s.len() - n,
{
    let p = |x: RecordView| same_login(r, x);
    if n < s.len() {
        crate::lists::lemma_filter_step(s, n, p);
        lemma_twins_grow(s, r, n + 1);
    } else {
        assert(s.take(n) =~= s);
    }
}

proof fn lemma_two_twins(s: Seq<RecordView>, r: RecordView, i: int, j: int)
    requires
        0 <= i < j < s.len(),
        same_login(r, s[i]),
        same_login(r, s[j]),
    ensures
        twins(s, r).len() > 1,
{
    let p = |x: RecordView| same_login(r, x);
    crate::lists::lemma_filter_step(s, i, p);
    crate::lists::lemma_filter_step(s, j, p);
    assert(s.take(i + 1).filter(p).len() > 0);
    let t = s.take(j);
    lemma_twins_grow(t, r, i + 1);
    assert(t.take(i + 1) =~= s.take(i + 1));
    assert(s.take(j + 1).filter(p).len() > 1);
    lemma_twins_grow(s, r, j + 1);
}

proof fn lemma_groups_found(s: Seq<RecordView>, i: int, j: int, n: int)
    requires
        0 <= i < j < s.len(),
        same_login(s[i], s[j]),
        i < n <= s.len(),
    ensures
        twin_groups(s, n).len() > 0,
    decreases i, n,
{
    if i < n - 1 {
        lemma_groups_found(s, i, j, n - 1);
    } else if has_twin(s, s[i], i) {
        let k = choose|k: int| 0 <= k < i && same_login(#[trigger] s[k], s[i]);
        lemma_groups_found(s, k, i, n - 1);
    } else {
        assert(same_login(s[i], s[i]));
        lemma_two_twins(s, s[i], i, j);
    }
}

proof fn lemma_no_groups(s: Seq<RecordView>, n: int)
    requires
        0 <= n <= s.len(),
        forall|a: int, b: int|
            0 <= a < b < s.len() ==> (#[trigger] s[a]).username != (#[trigger] s[b]).username,
    ensures
        twin_groups(s, n).len() == 0,
    decreases n,
{
    if n > 0 {
        lemma_no_groups(s, n - 1);
        lemma_one_twin(s, n - 1, s.len() as int);
        assert(s.take(s.len() as int) =~= s);
    }
}

proof fn lemma_one_twin(s: Seq<RecordView>, k: int, n: int)
    requires
        0 <= n <= s.len(),
        0 <= k < s.len(),
        forall|a: int, b: int|
            0 <= a < b < s.len() ==> (#[trigger] s[a]).username != (#[trigger] s[b]).username,
    ensures
        twins(s.take(n), s[k]).len() <= (if k < n {
            1int
        } else {
            0
        }),
    decreases n,
{
    let p = |x: RecordView| same_login(s[k], x);
    if n > 0 {
        lemma_one_twin(s, k, n - 1);
        crate::lists::lemma_filter_step(s, n - 1, p);
        if k < n - 1 {
            assert(s[k].username != s[n - 1].username);
        } else if k > n - 1 {
            assert(s[n - 1].username != s[k].username);
        }
    } else {
        reveal(Seq::filter);
        assert(s.take(0) =~= Seq::<RecordView>::empty());
    }
}

/// A listing on the dashboard has exactly the records with the chosen tag that the query occurs
/// in.
pub proof fn law_dashboard_shows_what_was_asked(
    all: &Vec<SecretRecord>,
    tag: &Option<String>,
    query: &str,
    out: Vec<SecretRecord>,
    i: int,
)
    requires
        call_ensures(apply_filter, (all, tag, query), out),
        0 <= i < all@.len(),
    ensures
        records(out@).contains(all@[i]@) <==> (tag matches Some(t) ==> tags_of(
            all@[i].category@,
        ).contains(t@)) && (occurs(lower(all@[i].title@), lower(query@)) || occurs(
            lower(all@[i].category@),
            lower(query@),
        ) || occurs(lower(all@[i].username@), lower(query@)) || occurs(
            lower(all@[i].url@),
            lower(query@),
        )),
        forall|s: RecordView| #[trigger] records(out@).contains(s) ==> records(all@).contains(s),
{
    let s = records(all@);
    let t = crate::db::records::text_opt(*tag);
    let p = |r: RecordView| crate::render::matches_tag(r, t);
    let q = |r: RecordView| crate::cli::matches_query(r, lower(query@));
    lemma_filter_members(s, p);
    lemma_filter_members(s.filter(p), q);
    assert(s[i] == all@[i]@);
    assert(s.contains(s[i]));
}

/// The list of tags has every tag of every record, and each once.
pub proof fn law_every_tag_is_listed(all: &Vec<SecretRecord>, out: Vec<String>, t: Seq<char>)
    requires
        call_ensures(list_tags, (all,), out),
    ensures
        texts(out@).contains(t) <==> exists|i: int|
            0 <= i < all@.len() && tags_of((#[trigger] all@[i]).category@).contains(t),
        texts(out@).no_duplicates(),
{
    lemma_all_tags(all@, t, all@.len() as int);
}

proof fn lemma_with_new(a: Seq<Seq<char>>, b: Seq<Seq<char>>, t: Seq<char>)
    requires
        a.no_duplicates(),
    ensures
        crate::render::with_new(a, b).contains(t) <==> a.contains(t) || b.contains(t),
        crate::render::with_new(a, b).no_duplicates(),
    decreases b.len(),
{
    if b.len() > 0 {
        let d = b.drop_last();
        let x = b.last();
        let w = crate::render::with_new(a, d);
        lemma_with_new(a, d, t);
        if b.contains(t) {
            let k = choose|k: int| 0 <= k < b.len() && b[k] == t;
            if k < d.len() {
                assert(d[k] == t);
            }
        }
        if d.contains(t) {
            let k = choose|k: int| 0 <= k < d.len() && d[k] == t;
            assert(b[k] == t);
        }
        assert(b[b.len() - 1] == x);
        if !w.contains(x) {
            let n = w.push(x);
            assert(n[w.len() as int] == x);
            if w.contains(t) {
                let k = choose|k: int| 0 <= k < w.len() && w[k] == t;
                assert(n[k] == t);
            }
            if n.contains(t) {
                let k = choose|k: int| 0 <= k < n.len() && n[k] == t;
                if k < w.len() {
                    assert(w[k] == t);
                }
            }
            assert forall|i: int, j: int| 0 <= i < n.len() && 0 <= j < n.len() && i != j implies n[i]
                != n[j] by {
                if i < w.len() && j < w.len() {
                    assert(w[i] != w[j]);
                } else if i < w.len() {
                    assert(w.contains(w[i]));
                } else {
                    assert(w.contains(w[j]));
                }
            }
        }
    }
}

proof fn lemma_all_tags(all: Seq<SecretRecord>, t: Seq<char>, n: int)
    requires
        0 <= n <= all.len(),
    ensures
        crate::render::all_tags(records(all), n).contains(t) <==> exists|i: int|
            0 <= i < n && tags_of((#[trigger] all[i]).category@).contains(t),
        crate::render::all_tags(records(all), n).no_duplicates(),
    decreases n,
{
    if n > 0 {
        let a = crate::render::all_tags(records(all), n - 1);
        lemma_all_tags(all, t, n - 1);
        assert(records(all)[n - 1] == all[n - 1]@);
        lemma_with_new(a, tags_of(all[n - 1].category@), t);
        if a.contains(t) {
            let i = choose|i: int| 0 <= i < n - 1 && tags_of((#[trigger] all[i]).category@).contains(t);
            assert(tags_of(all[i].category@).contains(t));
        }
        if exists|i: int| 0 <= i < n && tags_of((#[trigger] all[i]).category@).contains(t) {
            let i = choose|i: int| 0 <= i < n && tags_of((#[trigger] all[i]).category@).contains(t);
            if i < n - 1 {
                assert(a.contains(t));
            }
        }
        if tags_of(all[n - 1].category@).contains(t) {
            assert(tags_of(all[n - 1].category@).contains(t));
        }
    }
}

/// On the dashboard `p` copies the password of the selected record, `c` its username and `u` its
/// address; `e` edits it, `d` asks whether to delete it, or those that are marked; and none of
/// them changes what is shown.
pub proof fn law_letters_act_on_the_selected_record(
    d: &mut Dashboard,
    c: char,
    no_sync: bool,
    configured: bool,
    a: DashAction,
)
    requires
        call_ensures(handle_dashboard_input, (d, KeyCode::Char(c), no_sync, configured), a),
        !old(d).searching,
        old(d).selected < old(d).shown@.len(),
    ensures
        c == 'p' ==> a == (DashAction::CopyPassword { index: old(d).selected }),
        c == 'c' ==> a == (DashAction::CopyUsername { index: old(d).selected }),
        c == 'u' ==> a == (DashAction::CopyUrl { index: old(d).selected }),
        c == 'e' ==> a == (DashAction::EditForm { index: old(d).selected }),
        c == 'd' && old(d).marked@.len() > 0 ==> a == DashAction::ConfirmMarked,
        c == 'd' && old(d).marked@.len() == 0 ==> a == (DashAction::ConfirmSingle {
            index: old(d).selected,
        }),
        c == 'a' ==> a == DashAction::AddForm,
        c == 'q' ==> a == DashAction::Quit,
        c == 's' ==> a == (if no_sync {
            DashAction::SyncDisabled
        } else if configured {
            DashAction::Sync
        } else {
            DashAction::SyncUnconfigured
        }),
        c == 'i' ==> a == DashAction::Import,
        c == 'x' ==> a == DashAction::Export,
        c == 'g' ==> a == DashAction::Generator,
        c == ',' ==> a == DashAction::Settings,
        c == 'm' ==> a == DashAction::ChangePassword,
        c == 'D' ==> a == DashAction::Deduplicate,
        c == 'h' ==> a == DashAction::CheckSome,
        c == 'H' ==> a == DashAction::CheckAll,
        c == '?' ==> a == DashAction::Help,
        c == 'v' ==> final(d).reveal_password != old(d).reveal_password,
        c != 'v' ==> final(d).reveal_password == old(d).reveal_password,
        c == '/' ==> final(d).searching,
        c != ' ' ==> final(d).marked@ == old(d).marked@,
        c == ' ' ==> (final(d).marked@.contains(old(d).shown@[old(d).selected as int].id) <==> !old(
            d,
        ).marked@.contains(old(d).shown@[old(d).selected as int].id)),
        final(d).selected == old(d).selected,
{
    let v = old(d)@;
    let w = final(d)@;
    assert(v.selected == old(d).selected && w.selected == final(d).selected);
    assert(v.shown.len() == old(d).shown@.len());
    assert(v.marked == old(d).marked@ && w.marked == final(d).marked@);
    assert(w.reveal_password == final(d).reveal_password && v.reveal_password
        == old(d).reveal_password);
    assert(w.searching == final(d).searching && v.searching == old(d).searching);
    let id = old(d).shown@[old(d).selected as int].id;
    assert(v.shown[v.selected].id as i64 == id);
    if c == ' ' {
        let p = crate::render::other_than(id);
        lemma_filter_members(v.marked, p);
        if !v.marked.contains(id) {
            assert(v.marked.push(id)[v.marked.len() as int] == id);
        }
    }
}

/// In a search, typing lengthens the query and the backspace key shortens it; the list follows.
pub proof fn law_search_follows_the_typing(
    d: &mut Dashboard,
    code: KeyCode,
    no_sync: bool,
    configured: bool,
    a: DashAction,
)
    requires
        call_ensures(handle_dashboard_input, (d, code, no_sync, configured), a),
        old(d).searching,
    ensures
        code is Char ==> final(d).search_query@ == old(d).search_query@.push(code->Char_0) && a
            == DashAction::Filter,
        code == KeyCode::Backspace && old(d).search_query@.len() > 0 ==> final(d).search_query@
            == old(d).search_query@.drop_last() && a == DashAction::Filter,
        code == KeyCode::Esc || code == KeyCode::Enter ==> !final(d).searching
            && final(d).search_query@ == old(d).search_query@,
{
    let v = old(d)@;
    let w = final(d)@;
    assert(w.search_query == final(d).search_query@ && v.search_query == old(d).search_query@);
    assert(w.searching == final(d).searching);
}

/// What is looked up among breaches: the marked records, or else the selected one.
pub proof fn law_marked_records_are_checked(d: &Dashboard, ids: Vec<i64>)
    requires
        call_ensures(records_to_check, (d,), ids),
    ensures
        d.marked@.len() > 0 ==> ids@ == d.marked@,
        d.marked@.len() == 0 && d.selected < d.shown@.len() ==> ids@ == seq![
            d.shown@[d.selected as int].id,
        ],
        d.marked@.len() == 0 && d.selected >= d.shown@.len() ==> ids@.len() == 0,
{
    assert(d@.shown.len() == d.shown@.len());
    if d.selected < d.shown@.len() {
        assert(d@.shown[d@.selected].id as i64 == d.shown@[d.selected as int].id);
    }
}

/// A password is asked about online once: not again where its answer is known from this session
/// or as a breach from before. What is asked about is the record's own password.
pub proof fn law_passwords_are_asked_about_once(
    r: &SecretRecord,
    key: &[u8; 32],
    asked: &Vec<String>,
    cache: &Vec<HibpCheck>,
    s: LookupStep,
    password: Seq<char>,
)
    requires
        call_ensures(plan_lookup, (r, key, asked, cache), s),
        reads(r.encrypted_password@, key@, password),
    ensures
        texts(asked@).contains(fingerprint_of(encode_utf8(password), key@)) ==> s is Known,
        (crate::db::store::cached(
            checks(cache@),
            fingerprint_of(encode_utf8(password), key@),
        ) matches Some(Some(n)) && n > 0) ==> s is Known,
        !texts(asked@).contains(fingerprint_of(encode_utf8(password), key@))
            && !(crate::db::store::cached(
            checks(cache@),
            fingerprint_of(encode_utf8(password), key@),
        ) matches Some(Some(n)) && n > 0) ==> s is Ask,
        s matches LookupStep::Ask { password: p, fingerprint } ==> p@ == password && fingerprint@
            == fingerprint_of(encode_utf8(password), key@),
        !(s is Skip),
{
    lemma_text_round_trip(password);
    encode_utf8_valid_utf8(password);
}

/// What the details of a record show: its fields under their names, and its secrets only where
/// they are to be seen.
pub proof fn law_details_show_the_record(
    r: &SecretRecord,
    key: &Option<[u8; 32]>,
    visible: bool,
    v: Vec<(String, String)>,
    p: String,
    n: String,
    password: Seq<char>,
    notes: Seq<char>,
)
    requires
        call_ensures(detail_lines, (r, key, visible), v),
        call_ensures(shown_password, (r, key, visible), p),
        call_ensures(shown_notes, (r, key, visible), n),
    ensures
        v@.len() == 10,
        v@[0].0@ == "Title:    "@ && v@[0].1@ == r.title@,
        v@[1].0@ == "Tags:     "@ && v@[1].1@ == r.category@,
        v@[2].0@ == "Username: "@ && v@[2].1@ == r.username@,
        v@[3].0@ == "URL:      "@ && v@[3].1@ == r.url@,
        v@[4].0@ == "Password: "@ && v@[4].1@ == p@,
        v@[7].1@ == n@,
        v@[9].1@ == r.updated_at@,
        !visible ==> p@ == "••••••••••••"@,
        visible && *key is None ==> p@ == "<Locked>"@,
        visible && *key is Some && reads(r.encrypted_password@, (*key)->0@, password) ==> p@ == password,
        visible && *key is Some && opened(r.encrypted_password@, (*key)->0@) is Err ==> p@
            == "<Error Decrypting>"@,
        r.encrypted_notes is None ==> n@ == "[No Notes]"@,
        r.encrypted_notes is Some && !visible ==> n@ == "•••••••• (press [v] to reveal)"@,
        r.encrypted_notes is Some && visible && *key is Some && reads(
            r.encrypted_notes->0@,
            (*key)->0@,
            notes,
        ) ==> n@ == notes,
{
    let t = pairs(v@);
    assert(t.len() == v@.len());
    assert(t[0] == (v@[0].0@, v@[0].1@));
    assert(t[1] == (v@[1].0@, v@[1].1@));
    assert(t[2] == (v@[2].0@, v@[2].1@));
    assert(t[3] == (v@[3].0@, v@[3].1@));
    assert(t[4] == (v@[4].0@, v@[4].1@));
    assert(t[7] == (v@[7].0@, v@[7].1@));
    assert(t[9] == (v@[9].0@, v@[9].1@));
    lemma_text_round_trip(password);
    lemma_text_round_trip(notes);
}

/// What is typed as a password is shown as so many marks, unless it is to be seen.
pub proof fn law_typed_passwords_are_hidden(
    password: &str,
    hidden: String,
    open: String,
    stars: String,
)
    requires
        call_ensures(form_password, (password, false), hidden),
        call_ensures(form_password, (password, true), open),
        call_ensures(starred, (password,), stars),
    ensures
        open@ == password@,
        hidden@.len() == password@.len(),
        forall|i: int| 0 <= i < hidden@.len() ==> #[trigger] hidden@[i] == '•',
        forall|i: int| 0 <= i < stars@.len() ==> #[trigger] stars@[i] == '*',
{
}

/// A password that the vault's other records or a known breach have is warned of.
pub proof fn law_reuse_and_breaches_are_warned_of(
    password: &str,
    fingerprints: &Vec<String>,
    cache: &Vec<HibpCheck>,
    key: [u8; 32],
    s: String,
    i: int,
)
    requires
        call_ensures(audit_warning, (password, fingerprints, cache, &Some(key)), s),
        password@.len() > 0,
    ensures
        0 <= i < fingerprints@.len() && fingerprints@[i]@ == fingerprint_of(
            encode_utf8(password@),
            key@,
        ) && crate::db::store::cached(
            checks(cache@),
            fingerprint_of(encode_utf8(password@), key@),
        ) is None ==> exists|n: nat|
            n > 0 && s@ == "⚠ Reused in "@ + #[trigger] decimal(n) + " other entry(ies)"@,
        (forall|k: int|
            0 <= k < fingerprints@.len() ==> (#[trigger] fingerprints@[k])@ != fingerprint_of(
                encode_utf8(password@),
                key@,
            )) ==> (match crate::db::store::cached(
            checks(cache@),
            fingerprint_of(encode_utf8(password@), key@),
        ) {
            Some(Some(n)) => if n > 0 {
                s@ == "⚠ Breached ("@ + decimal(n as nat) + " times in HIBP database)"@
            } else {
                s@ == "✓ Unique & not known pwned (in local cache)"@
            },
            _ => s@ == "✓ Unique & not known pwned (in local cache)"@,
        }),
{
    let f = fingerprint_of(encode_utf8(password@), key@);
    let t = texts(fingerprints@);
    let n = crate::audit::occurrences(t, f, t.len() as int);
    if 0 <= i < fingerprints@.len() && fingerprints@[i]@ == f {
        assert(t[i] == f);
        lemma_counted(t, f, i, t.len() as int);
    }
    if forall|k: int| 0 <= k < fingerprints@.len() ==> (#[trigger] fingerprints@[k])@ != f {
        assert forall|k: int| 0 <= k < t.len() implies #[trigger] t[k] != f by {
            assert(t[k] == fingerprints@[k]@);
        }
        lemma_uncounted(t, f, t.len() as int);
    }
}

proof fn lemma_counted(t: Seq<Seq<char>>, f: Seq<char>, i: int, n: int)
    requires
        0 <= i < n <= t.len(),
        t[i] == f,
    ensures
        crate::audit::occurrences(t, f, n) > 0,
    decreases n,
{
    if i < n - 1 {
        lemma_counted(t, f, i, n - 1);
    }
}

proof fn lemma_uncounted(t: Seq<Seq<char>>, f: Seq<char>, n: int)
    requires
        0 <= n <= t.len(),
        forall|k: int| 0 <= k < n ==> #[trigger] t[k] != f,
    ensures
        crate::audit::occurrences(t, f, n) == 0,
    decreases n,
{
    if n > 0 {
        lemma_uncounted(t, f, n - 1);
    }
}

/// The bar of a password shows two of its ten marks for each point of its score, and its name is
/// that of its severity.
pub proof fn law_bar_shows_the_score(
    password: &str,
    r: (String, String, Option<Severity>),
    rated: (Severity, Vec<String>, u8),
    i: int,
)
    requires
        call_ensures(get_strength_bar, (password,), r),
        call_ensures(check_strength, (password,), rated),
        password@.len() > 0,
    ensures
        r.2 == Some(rated.0),
        rated.0 == Severity::Good ==> r.1@ == " Good"@,
        rated.0 == Severity::Weak ==> r.1@ == " Weak"@,
        rated.0 == Severity::Critical ==> r.1@ == " Critical"@,
        r.0@.len() == 13,
        0 <= i < 10 ==> r.0@[2 + i] == (if i < 2 * rated.2 {
            '█'
        } else {
            '░'
        }),
{
    reveal_strlit(" [");
    reveal_strlit("]");
    reveal_strlit(" ");
    reveal_strlit("Good");
    reveal_strlit("Weak");
    reveal_strlit("Critical");
    reveal_strlit(" Good");
    reveal_strlit(" Weak");
    reveal_strlit(" Critical");
    crate::strength::law_score_agrees_with_severity(password@);
    assert(" "@ + "Good"@ =~= " Good"@);
    assert(" "@ + "Weak"@ =~= " Weak"@);
    assert(" "@ + "Critical"@ =~= " Critical"@);
}

/// An audit's lines say what its entry does.
pub proof fn law_audit_lines_show_the_entry(e: &AuditEntry, v: Vec<(String, String)>, i: int)
    requires
        call_ensures(audit_lines, (e,), v),
    ensures
        v@.len() >= 5,
        e.severity == Severity::Critical ==> v@[2].1@ == "CRITICAL"@,
        e.severity == Severity::Weak ==> v@[2].1@ == "WEAK"@,
        e.severity == Severity::Good ==> v@[2].1@ == "GOOD"@,
        e.hibp_count is None ==> v@[4].1@ == "Not checked (Press [h] to check online)"@,
        e.hibp_count == Some(0u64) ==> v@[4].1@ == "✓ Clean (not found in breaches)"@,
        e.hibp_count matches Some(n) ==> (n > 0 ==> v@[4].1@ == "✗ PWNED (found in "@ + decimal(
            n as nat,
        ) + " breaches)"@),
        e.issues@.len() == 0 ==> v@.len() == 5,
        e.issues@.len() > 0 ==> v@.len() == 6 + e.issues@.len(),
        0 <= i < e.issues@.len() ==> v@[6 + i].1@ == e.issues@[i]@,
{
    let t = pairs(v@);
    assert(t.len() == v@.len());
    assert(t[2] == (v@[2].0@, v@[2].1@));
    assert(t[4] == (v@[4].0@, v@[4].1@));
    assert(e@.issues.len() == e.issues@.len());
    if 0 <= i < e.issues@.len() {
        assert(t[6 + i] == (v@[6 + i].0@, v@[6 + i].1@));
        assert(e@.issues[i] == e.issues@[i]@);
    }
}

/// The settings screen shows the settings, and saves what it shows: a number that is in range is
/// saved as it is, and the switches as they stand.
pub proof fn law_saved_settings_are_those_shown(
    f: &mut SettingsForm,
    o: SettingsOutcome,
    idle: nat,
    clip: nat,
    length: nat,
    keep: nat,
)
    requires
        call_ensures(handle_settings_input, (f, KeyCode::Enter), o),
        unsigned_value(old(f).idle_timeout@, u64::MAX as nat) == Some(idle),
        unsigned_value(old(f).clipboard_clear@, u64::MAX as nat) == Some(clip),
        unsigned_value(old(f).gen_length@, usize::MAX as nat) == Some(length),
        unsigned_value(old(f).history_retention@, u64::MAX as nat) == Some(keep),
    ensures
        o is Save,
        ({
            let c = o->config;
            &&& c.auto_sync == old(f).auto_sync
            &&& c.generator.use_lowercase == old(f).gen_lowercase
            &&& c.generator.use_uppercase == old(f).gen_uppercase
            &&& c.generator.use_numbers == old(f).gen_numbers
            &&& c.generator.use_symbols == old(f).gen_symbols
            &&& idle >= 10 ==> c.idle_timeout_seconds == idle
            &&& idle < 10 ==> c.idle_timeout_seconds == 10
            &&& 1 <= clip <= 3600 ==> c.clipboard_clear_seconds == clip
            &&& clip > 3600 ==> c.clipboard_clear_seconds == 3600
            &&& 4 <= length <= 256 ==> c.generator.length == length
            &&& length < 4 ==> c.generator.length == 4
            &&& length > 256 ==> c.generator.length == 256
            &&& keep == 0 || keep >= 10 ==> c.history_retention == keep
            &&& 0 < keep < 10 ==> c.history_retention == 10
        }),
{
    let v = old(f)@;
    assert(v.idle_timeout == old(f).idle_timeout@ && v.clipboard_clear == old(f).clipboard_clear@);
    assert(v.gen_length == old(f).gen_length@ && v.history_retention == old(f).history_retention@);
    assert(v.auto_sync == old(f).auto_sync && v.gen_lowercase == old(f).gen_lowercase);
    assert(v.gen_uppercase == old(f).gen_uppercase && v.gen_numbers == old(f).gen_numbers);
    assert(v.gen_symbols == old(f).gen_symbols);
}

/// A settings screen that is opened shows the present settings.
pub proof fn law_settings_screen_shows_the_settings(c: &AppConfig, f: SettingsForm)
    requires
        call_ensures(open_settings, (c,), f),
    ensures
        f.idle_timeout@ == decimal(c.idle_timeout_seconds as nat),
        f.clipboard_clear@ == decimal(c.clipboard_clear_seconds as nat),
        f.gen_length@ == decimal(c.generator.length as nat),
        f.history_retention@ == decimal(c.history_retention as nat),
        f.auto_sync == c.auto_sync,
        f.gen_lowercase == c.generator.use_lowercase,
        f.gen_uppercase == c.generator.use_uppercase,
        f.gen_numbers == c.generator.use_numbers,
        f.gen_symbols == c.generator.use_symbols,
{
    let v = f@;
    assert(v.idle_timeout == f.idle_timeout@ && v.clipboard_clear == f.clipboard_clear@);
    assert(v.gen_length == f.gen_length@ && v.history_retention == f.history_retention@);
    assert(v.auto_sync == f.auto_sync && v.gen_lowercase == f.gen_lowercase);
    assert(v.gen_uppercase == f.gen_uppercase && v.gen_numbers == f.gen_numbers);
    assert(v.gen_symbols == f.gen_symbols);
}

/// A switch on the settings screen is thrown where it has the focus, and no other setting
/// changes with it.
pub proof fn law_space_throws_the_focused_switch(f: &mut SettingsForm, o: SettingsOutcome)
    requires
        call_ensures(handle_settings_input, (f, KeyCode::Char(' ')), o),
    ensures
        final(f).auto_sync == (old(f).auto_sync != (old(f).active == 2)),
        final(f).gen_lowercase == (old(f).gen_lowercase != (old(f).active == 4)),
        final(f).gen_uppercase == (old(f).gen_uppercase != (old(f).active == 5)),
        final(f).gen_numbers == (old(f).gen_numbers != (old(f).active == 6)),
        final(f).gen_symbols == (old(f).gen_symbols != (old(f).active == 7)),
        final(f).idle_timeout@ == old(f).idle_timeout@,
        final(f).clipboard_clear@ == old(f).clipboard_clear@,
        final(f).gen_length@ == old(f).gen_length@,
        final(f).history_retention@ == old(f).history_retention@,
{
    let v = old(f)@;
    let w = final(f)@;
    assert(w.auto_sync == final(f).auto_sync && w.gen_lowercase == final(f).gen_lowercase);
    assert(w.gen_uppercase == final(f).gen_uppercase && w.gen_numbers == final(f).gen_numbers);
    assert(w.gen_symbols == final(f).gen_symbols);
    assert(w.idle_timeout == final(f).idle_timeout@ && w.clipboard_clear
        == final(f).clipboard_clear@);
    assert(w.gen_length == final(f).gen_length@ && w.history_retention
        == final(f).history_retention@);
    assert(v.active == old(f).active);
}

/// A vault is set up only with a password that is not empty and was typed twice the same.
pub proof fn law_setup_needs_the_password_twice(f: &mut SetupForm, o: EntryOutcome)
    requires
        call_ensures(handle_setup_input, (f, KeyCode::Enter), o),
    ensures
        o == EntryOutcome::Submit <==> old(f).password@.len() > 0 && old(f).password@ == old(f).confirm@,
        o == EntryOutcome::Submit || o == EntryOutcome::Stay,
        old(f).password@.len() == 0 ==> final(f).error@ == "Password cannot be empty!"@,
        old(f).password@.len() > 0 && old(f).password@ != old(f).confirm@ ==> final(f).error@
            == "Passwords do not match!"@,
        final(f).password@ == old(f).password@,
{
    let v = old(f)@;
    let w = final(f)@;
    assert(w.error == final(f).error@ && w.password == final(f).password@ && v.confirm
        == old(f).confirm@);
}

/// The password that was entered is forgotten, whether it opened the vault or not; where it did
/// not, the screen says why.
pub proof fn law_entered_password_is_forgotten(f: &mut LockForm, r: &Result<(), String>, open: bool)
    requires
        call_ensures(perform_unlock, (f, r), open),
    ensures
        open <==> *r is Ok,
        final(f).password@.len() == 0,
        *r matches Err(e) ==> final(f).error@ == e@,
{
}

/// On the lock screen typing lengthens the password, and only the enter key hands it in.
pub proof fn law_lock_screen_takes_the_password(f: &mut LockForm, code: KeyCode, o: EntryOutcome)
    requires
        call_ensures(handle_lock_input, (f, code), o),
    ensures
        code is Char ==> final(f).password@ == old(f).password@.push(code->Char_0),
        code == KeyCode::Backspace && old(f).password@.len() > 0 ==> final(f).password@
            == old(f).password@.drop_last(),
        o == EntryOutcome::Submit <==> code == KeyCode::Enter,
        o == EntryOutcome::Quit <==> code == KeyCode::Esc,
        code == KeyCode::Enter ==> final(f).password@ == old(f).password@,
{
}

/// A path is handed in without white space at its ends, and not where it is empty.
pub proof fn law_paths_are_trimmed(a: &mut String, b: &mut String, o: PathOutcome, p: PathOutcome)
    requires
        call_ensures(handle_import_input, (a, KeyCode::Enter), o),
        call_ensures(handle_export_input, (b, KeyCode::Enter), p),
    ensures
        trimmed(old(a)@).len() > 0 ==> (o matches PathOutcome::Submit { path } && path@ == trimmed(
            old(a)@,
        )),
        trimmed(old(a)@).len() == 0 ==> o is Stay,
        trimmed(old(b)@).len() > 0 ==> (p matches PathOutcome::Submit { path } && path@ == trimmed(
            old(b)@,
        )),
        trimmed(old(b)@).len() == 0 ==> p is Stay,
{
}

/// `a` exports all records, `s` the marked ones, of which there must be some.
pub proof fn law_export_choice(c: char, any: bool, o: ExportChoice)
    requires
        call_ensures(handle_export_type_input, (KeyCode::Char(c), any), o),
    ensures
        c == 'a' || c == 'A' ==> o == ExportChoice::All,
        (c == 's' || c == 'S') && any ==> o == ExportChoice::Marked,
        o == ExportChoice::Marked ==> any,
        c == 'q' ==> o == ExportChoice::Close,
{
}

/// A mark is set where there was none and taken away where there was one; other marks stay.
pub proof fn law_marks_toggle(marked: &mut Vec<i64>, id: i64, x: i64)
    requires
        call_ensures(toggle_mark, (marked, id), ()),
    ensures
        final(marked)@.contains(id) <==> !old(marked)@.contains(id),
        x != id ==> (final(marked)@.contains(x) <==> old(marked)@.contains(x)),
{
    let m = old(marked)@;
    lemma_filter_members(m, crate::render::other_than(id));
    if !m.contains(id) {
        let n = m.push(id);
        assert(n[m.len() as int] == id);
        if m.contains(x) {
            let k = choose|k: int| 0 <= k < m.len() && m[k] == x;
            assert(n[k] == x);
        }
        if n.contains(x) && x != id {
            let k = choose|k: int| 0 <= k < n.len() && n[k] == x;
            assert(m[k] == x);
        }
    }
}

/// A password is reused where another record than the edited one has it.
pub proof fn law_reuse_is_looked_for_elsewhere(
    all: &Vec<SecretRecord>,
    key: &[u8; 32],
    except: Option<i64>,
    v: Vec<String>,
    i: int,
    password: Seq<char>,
)
    requires
        call_ensures(reuse_fingerprints, (all, key, except), v),
        0 <= i < all@.len(),
        reads(all@[i].encrypted_password@, key@, password),
    ensures
        except != Some(all@[i].id) ==> texts(v@).contains(
            fingerprint_of(encode_utf8(password), key@),
        ),
        except == Some(all@[i].id) && (forall|k: int|
            0 <= k < all@.len() && k != i ==> (#[trigger] all@[k]).id != all@[i].id && (readable_password(
                all@[k]@,
                key@,
            ) matches Some(p) ==> fingerprint_of(encode_utf8(p), key@) != fingerprint_of(
                encode_utf8(password),
                key@,
            ))) ==> !texts(v@).contains(fingerprint_of(encode_utf8(password), key@)),
{
    let f = fingerprint_of(encode_utf8(password), key@);
    let s = records(all@);
    let t = texts(v@);
    let n = t.len() as int;
    assert(s[i] == all@[i]@);
    encode_utf8_valid_utf8(password);
    encode_utf8_decode_utf8(password);
    assert(readable_password(s[i], key@) == Some(password));
    assert(crate::audit::occurrences(t, f, v@.len() as int) == sharing(s, f, key@, except));
    assert(n == v@.len());
    if except != Some(all@[i].id) {
        assert(shares(s[i], f, key@, except));
        lemma_sharing(s, f, key@, except, i);
        if !t.contains(f) {
            assert forall|k: int| 0 <= k < n implies #[trigger] t[k] != f by {
                if t[k] == f {
                    assert(t.contains(f));
                }
            }
            lemma_uncounted(t, f, n);
        }
    } else if forall|k: int|
        0 <= k < all@.len() && k != i ==> (#[trigger] all@[k]).id != all@[i].id && (readable_password(
            all@[k]@,
            key@,
        ) matches Some(p) ==> fingerprint_of(encode_utf8(p), key@) != f) {
        assert forall|k: int| 0 <= k < s.len() implies !shares(#[trigger] s[k], f, key@, except) by {
            assert(s[k] == all@[k]@);
            if k != i {
                assert(all@[k].id != all@[i].id);
            }
        }
        lemma_no_sharing(s, f, key@, except);
        if t.contains(f) {
            let k = choose|k: int| 0 <= k < n && t[k] == f;
            lemma_counted(t, f, k, n);
        }
    }
}

proof fn lemma_sharing(s: Seq<RecordView>, f: Seq<char>, key: Seq<u8>, except: Option<i64>, i: int)
    requires
        0 <= i < s.len(),
        shares(s[i], f, key, except),
    ensures
        sharing(s, f, key, except) > 0,
    decreases s.len(),
{
    let d = s.drop_last();
    if i < d.len() {
        assert(d[i] == s[i]);
        lemma_sharing(d, f, key, except, i);
    }
}

proof fn lemma_no_sharing(s: Seq<RecordView>, f: Seq<char>, key: Seq<u8>, except: Option<i64>)
    requires
        forall|k: int| 0 <= k < s.len() ==> !shares(#[trigger] s[k], f, key, except),
    ensures
        sharing(s, f, key, except) == 0,
    decreases s.len(),
{
    if s.len() > 0 {
        let d = s.drop_last();
        assert forall|k: int| 0 <= k < d.len() implies !shares(#[trigger] d[k], f, key, except) by {
            assert(d[k] == s[k]);
        }
        assert(!shares(s[s.len() - 1], f, key, except));
        lemma_no_sharing(d, f, key, except);
    }
}

/// What the generator shows is made to its options, or of as many words as it says.
pub proof fn law_generator_shows_what_was_ordered(d: &mut GeneratorDialog, list: &Vec<String>)
    requires
        call_ensures(regenerate_in_place, (d, list), ()),
    ensures
        !old(d).passphrase_mode && 4 <= old(d).options.length <= 256 ==> final(d).password@.len()
            == old(d).options.length,
        old(d).passphrase_mode && 3 <= old(d).words <= 12 ==> exists|w: Seq<Seq<char>>|
            final(d).password@ == #[trigger] chained(w) && w.len() == old(d).words && forall|i: int|
                0 <= i < w.len() ==> texts(list@).contains(#[trigger] w[i]),
        final(d).words == old(d).words,
        final(d).options.length == old(d).options.length,
        final(d).options.use_symbols == old(d).options.use_symbols,
        final(d).options.use_numbers == old(d).options.use_numbers,
        final(d).options.use_uppercase == old(d).options.use_uppercase,
{
    if old(d).passphrase_mode && 3 <= old(d).words <= 12 {
        let draws = choose|draws: Seq<usize>|
            picks(draws, texts(list@).len(), final(d).words as int) && final(d).password@
                == #[trigger] hyphenated(texts(list@), draws);
        let w = Seq::new(draws.len(), |i: int| texts(list@)[draws[i] as int]);
        lemma_chain(texts(list@), draws);
        assert forall|i: int| 0 <= i < w.len() implies texts(list@).contains(#[trigger] w[i]) by {
            assert(draws[i] < texts(list@).len());
            assert(texts(list@)[draws[i] as int] == w[i]);
        }
        assert(final(d).password@ == chained(w));
    }
}

/// A vault that was set up clears the form; where it could not be, the form says why.
pub proof fn law_setup_is_reported(f: &mut SetupForm, r: &Result<(), String>, open: bool)
    requires
        call_ensures(perform_setup, (f, r), open),
    ensures
        open <==> *r is Ok,
        *r is Ok ==> final(f).password@.len() == 0 && final(f).confirm@.len() == 0,
        *r matches Err(e) ==> final(f).error@ == e@,
{
    let w = final(f)@;
    assert(w.password == final(f).password@ && w.confirm == final(f).confirm@ && w.error
        == final(f).error@);
}

/// A screen that is at work says so; else it shows its error, and without one a hint.
pub proof fn law_errors_are_shown(f: &LockForm, busy: bool, migrates: bool, r: (Notice, String))
    requires
        call_ensures(lock_notice, (f, busy, migrates), r),
    ensures
        busy ==> r.0 == Notice::Busy,
        !busy && f.error@.len() > 0 ==> r.0 == Notice::Error && r.1@ == f.error@,
        !busy && f.error@.len() == 0 ==> r.0 == Notice::Hint,
{
}

/// The same on the screens that set a password.
pub proof fn law_password_errors_are_shown(
    f: &SetupForm,
    c: &ChangePasswordForm,
    busy: bool,
    r: (Notice, String),
    q: (Notice, String),
)
    requires
        call_ensures(setup_notice, (f, busy), r),
        call_ensures(change_notice, (c, busy), q),
    ensures
        busy ==> r.0 == Notice::Busy && q.0 == Notice::Busy,
        !busy && f.error@.len() > 0 ==> r.0 == Notice::Error && r.1@ == f.error@,
        !busy && c.error@.len() > 0 ==> q.0 == Notice::Error && q.1@ == c.error@,
        !busy && f.error@.len() == 0 ==> r.0 == Notice::Hint,
        !busy && c.error@.len() == 0 ==> q.0 == Notice::Hint,
{
}

/// What the duplicates screen shows of a record.
pub proof fn law_duplicate_lines_show_the_record(
    r: &SecretRecord,
    k: [u8; 32],
    v: Vec<(String, String)>,
    password: Seq<char>,
)
    requires
        call_ensures(duplicate_lines, (r, &Some(k)), v),
        reads(r.encrypted_password@, k@, password),
    ensures
        v@.len() >= 8,
        v@[0].1@ == r.title@,
        v@[1].1@ == r.category@,
        v@[2].1@ == r.username@,
        v@[3].1@ == r.url@,
        v@[4].1@ == password,
        v@[5].1@ == r.updated_at@,
{
    let t = pairs(v@);
    assert(t.len() == v@.len());
    assert(t[0] == (v@[0].0@, v@[0].1@));
    assert(t[1] == (v@[1].0@, v@[1].1@));
    assert(t[2] == (v@[2].0@, v@[2].1@));
    assert(t[3] == (v@[3].0@, v@[3].1@));
    assert(t[4] == (v@[4].0@, v@[4].1@));
    assert(t[5] == (v@[5].0@, v@[5].1@));
    encode_utf8_valid_utf8(password);
    encode_utf8_decode_utf8(password);
}

/// An import is reported with the number of its records, its source and what was skipped.
pub proof fn law_imports_are_reported(count: usize, f: ImportFormat, skipped: usize, s: String)
    requires
        call_ensures(import_message, (count, f, skipped), s),
    ensures
        skipped == 0 ==> s@ == "Success: Imported "@ + decimal(count as nat) + " items from "@
            + crate::import::format_name(f) + "!"@,
        skipped > 0 ==> s@ == "Success: Imported "@ + decimal(count as nat) + " items from "@
            + crate::import::format_name(f) + "!"@ + (" ("@ + decimal(skipped as nat)
            + " non-login item(s) skipped)"@),
{
    if skipped == 0 {
        let t = "Success: Imported "@ + decimal(count as nat) + " items from "@
            + crate::import::format_name(f) + "!"@;
        assert(t + Seq::<char>::empty() =~= t);
    }
}

/// In the settings the left and right arrows move within a row of two, the up and down arrows
/// from row to row, round the ends; the last row has one.
pub proof fn law_settings_are_a_grid_of_two_columns(field: usize, left: usize, right: usize, up: usize, down: usize)
    requires
        field < 9,
        call_ensures(settings_field_step, (field, KeyCode::Left), left),
        call_ensures(settings_field_step, (field, KeyCode::Right), right),
        call_ensures(settings_field_step, (field, KeyCode::Up), up),
        call_ensures(settings_field_step, (field, KeyCode::Down), down),
    ensures
        left == right,
        field < 8 ==> left / 2 == field / 2 && left != field,
        field == 8 ==> left == 8,
        field >= 2 ==> up == field - 2,
        field < 7 ==> down == field + 2,
        field == 0 ==> up == 8,
        field == 1 ==> up == 7,
        field == 8 ==> down == 0,
        field == 7 ==> down == 1,
{
}

/// A text is scrolled no further than to its end, and the share of a lookup that is done is in
/// percent.
pub proof fn law_scrolling_ends_with_the_text(
    scroll: u16,
    count: u16,
    height: u16,
    r: (u16, u16),
    checked: usize,
    total: usize,
    p: usize,
)
    requires
        call_ensures(visible_scroll, (scroll, count, height), r),
        checked <= total,
        call_ensures(progress_percent, (checked, total), p),
    ensures
        r.0 <= r.1 <= count,
        r.0 <= scroll,
        scroll <= r.1 ==> r.0 == scroll,
        height >= 3 && count <= height - 3 ==> r.1 == 0,
        height >= 3 && count > height - 3 ==> r.1 == count - (height - 3),
        total > 0 && checked == total ==> p == 100,
        checked == 0 ==> p == 0,
{
    if total > 0 && checked == total {
        let t = total as int;
        assert(t * 100 / t == 100) by (nonlinear_arith)
            requires
                t > 0,
        ;
    }
}

/// Notes are shown as they were stored, and nothing where there are none.
pub proof fn law_notes_are_shown_as_stored(
    data: &Option<Vec<u8>>,
    key: &[u8; 32],
    s: String,
    text: Seq<char>,
)
    requires
        call_ensures(reveal_notes, (data, key), s),
    ensures
        *data is None ==> s@.len() == 0,
        data matches Some(d) && reads(d@, key@, text) ==> s@ == text,
{
    lemma_text_round_trip(text);
}

/// An interrupted change names the backup to restore, and the name to give it.
pub proof fn law_recovery_names_the_backup(path: &str, migration: String, rotation: String, a: String, b: String)
    requires
        call_ensures(interrupted_migration_message, (path,), migration),
        call_ensures(interrupted_rotation_message, (path,), rotation),
        call_ensures(pre_sqlcipher_backup_path, (path,), a),
        call_ensures(pre_rekey_backup_path, (path,), b),
    ensures
        exists|x: Seq<char>, y: Seq<char>|
            migration@ == #[trigger] (x + ("   mv "@ + quoted(a@) + " "@ + quoted(path@)) + y),
        exists|x: Seq<char>, y: Seq<char>|
            rotation@ == #[trigger] (x + ("   mv "@ + quoted(b@) + " "@ + quoted(path@)) + y),
{
    lemma_recovery(
        "migration to the encrypted database format"@,
        "pre-migration"@,
        a@,
        path@,
        "to retry the migration"@,
        sibling(path@, "vault.db.migrating"@),
    );
    lemma_recovery(
        "master password change"@,
        "pre-rotation"@,
        b@,
        path@,
        "and retry the password change"@,
        sibling(path@, "vault.db.rekeying"@),
    );
}

proof fn lemma_recovery(
    what: Seq<char>,
    backup_of: Seq<char>,
    backup: Seq<char>,
    db: Seq<char>,
    then_do: Seq<char>,
    leftover: Seq<char>,
)
    ensures
        exists|x: Seq<char>, y: Seq<char>|
            crate::db::layout::recovery(what, backup_of, backup, db, then_do, leftover) == #[trigger] (x + (
            "   mv "@ + quoted(backup) + " "@ + quoted(db)) + y),
{
    let s = crate::db::layout::recovery(what, backup_of, backup, db, then_do, leftover);
    reveal_strlit("   mv ");
    reveal_strlit(" backup:\n   mv ");
    reveal_strlit(" backup:\n");
    assert(" backup:\n"@ + "   mv "@ =~= " backup:\n   mv "@);
    let x = "A previous "@ + what
        + " was interrupted (e.g. a crash or power loss) and left the vault in an inconsistent state. Nothing was lost -- your data is still on disk and recoverable:\n\n1. Restore the "@
        + backup_of + " backup:\n"@;
    let y = "\n2. Then run keystash again "@ + then_do + ".\n\n(If present, "@ + quoted(leftover)
        + " is a partially-built copy from the interrupted attempt and can be safely deleted.)"@;
    assert(s =~= x + ("   mv "@ + quoted(backup) + " "@ + quoted(db)) + y);
}

/// The backspace key takes the last character of the field that has the focus, the back tab moves
/// the focus back, and a character with a modifier is not typed.
pub proof fn law_form_keys_edit_the_focused_field(
    form: &mut SecretForm,
    vault: &mut Vault,
    key: &Option<[u8; 32]>,
    code: KeyCode,
    m: KeyModifiers,
    options: &GeneratorOptions,
    now: &str,
    cap: usize,
    o: FormOutcome,
    before: SecretForm,
)
    requires
        *old(form) == before,
        call_ensures(handle_form_input, (form, vault, key, code, m, options, now, cap), o),
    ensures
        code == KeyCode::Backspace && before.active is Password && before.password@.len() > 0
            ==> final(form).password@ == before.password@.drop_last() && final(form).title@
            == before.title@ && final(form).notes@ == before.notes@,
        code == KeyCode::Backspace && before.active is Title && before.title@.len() > 0
            ==> final(form).title@ == before.title@.drop_last() && final(form).password@
            == before.password@,
        code == KeyCode::Backspace && before.active is Category && before.category@.len() > 0
            ==> final(form).category@ == before.category@.drop_last(),
        code == KeyCode::Backspace && before.active is Username && before.username@.len() > 0
            ==> final(form).username@ == before.username@.drop_last(),
        code == KeyCode::Backspace && before.active is Url && before.url@.len() > 0
            ==> final(form).url@ == before.url@.drop_last(),
        code == KeyCode::Backspace && before.active is Notes && before.notes@.len() > 0
            ==> final(form).notes@ == before.notes@.drop_last() && final(form).password@
            == before.password@,
        code == KeyCode::BackTab ==> final(form).active == (match before.active {
            FormField::Title => FormField::Notes,
            FormField::Category => FormField::Title,
            FormField::Username => FormField::Category,
            FormField::Url => FormField::Username,
            FormField::Password => FormField::Url,
            FormField::Notes => FormField::Password,
        }),
        code is Char && (m.control || m.alt) && code->Char_0 != 'g' && code->Char_0 != 'G'
            ==> final(form)@ == before@,
{
    let a = before@;
    let b = final(form)@;
    assert(b.title == final(form).title@ && b.category == final(form).category@);
    assert(b.username == final(form).username@ && b.url == final(form).url@);
    assert(b.password == final(form).password@ && b.notes == final(form).notes@);
    assert(a.active == before.active && b.active == final(form).active);
}

/// In the form for the master password, typing goes to the field that has the focus; the escape
/// key clears all of it.
pub proof fn law_password_form_takes_what_is_typed(
    f: &mut ChangePasswordForm,
    code: KeyCode,
    unlocked: bool,
    o: ChangeOutcome,
    before: ChangePasswordForm,
)
    requires
        *old(f) == before,
        before.field < 3,
        call_ensures(handle_change_password_input, (f, code, unlocked), o),
    ensures
        code is Char ==> final(f).current@ == (if before.field == 0 {
            before.current@.push(code->Char_0)
        } else {
            before.current@
        }),
        code is Char ==> final(f).new@ == (if before.field == 1 {
            before.new@.push(code->Char_0)
        } else {
            before.new@
        }),
        code is Char ==> final(f).confirm@ == (if before.field == 2 {
            before.confirm@.push(code->Char_0)
        } else {
            before.confirm@
        }),
        code == KeyCode::Esc ==> o == ChangeOutcome::Close && final(f).current@.len() == 0
            && final(f).new@.len() == 0 && final(f).confirm@.len() == 0,
        code == KeyCode::Tab ==> final(f).field == (before.field + 1) % 3,
        code == KeyCode::BackTab ==> (final(f).field + 1) % 3 == before.field,
        o == ChangeOutcome::Change ==> code == KeyCode::Enter,
{
    let a = before@;
    let b = final(f)@;
    assert(b.current == final(f).current@ && b.new == final(f).new@ && b.confirm
        == final(f).confirm@ && b.field == final(f).field);
    assert(a.current == before.current@ && a.new == before.new@ && a.confirm == before.confirm@
        && a.field == before.field);
}

/// On the setup screen, typing goes to the password or to its confirmation, as the focus stands.
pub proof fn law_setup_form_takes_what_is_typed(
    f: &mut SetupForm,
    code: KeyCode,
    o: EntryOutcome,
    before: SetupForm,
)
    requires
        *old(f) == before,
        call_ensures(handle_setup_input, (f, code), o),
    ensures
        code is Char && before.on_confirm ==> final(f).confirm@ == before.confirm@.push(code->Char_0)
            && final(f).password@ == before.password@,
        code is Char && !before.on_confirm ==> final(f).password@ == before.password@.push(code->Char_0)
            && final(f).confirm@ == before.confirm@,
        code == KeyCode::Tab || code == KeyCode::BackTab ==> final(f).on_confirm != before.on_confirm,
        code == KeyCode::Backspace && !before.on_confirm && before.password@.len() > 0
            ==> final(f).password@ == before.password@.drop_last() && final(f).confirm@
            == before.confirm@,
        code == KeyCode::Backspace && before.on_confirm && before.confirm@.len() > 0
            ==> final(f).confirm@ == before.confirm@.drop_last() && final(f).password@
            == before.password@,
        o == EntryOutcome::Submit ==> code == KeyCode::Enter,
        o == EntryOutcome::Quit <==> code == KeyCode::Esc,
{
    let a = before@;
    let b = final(f)@;
    assert(b.password == final(f).password@ && b.confirm == final(f).confirm@ && b.on_confirm
        == final(f).on_confirm);
    assert(a.password == before.password@ && a.confirm == before.confirm@ && a.on_confirm
        == before.on_confirm);
}

/// The page keys move the selection by ten records or five tags, up to the ends.
pub proof fn law_pages_move_the_selection(
    d: &mut Dashboard,
    code: KeyCode,
    no_sync: bool,
    configured: bool,
    a: DashAction,
)
    requires
        call_ensures(handle_dashboard_input, (d, code, no_sync, configured), a),
        !old(d).searching,
        old(d).selected < old(d).shown@.len(),
        old(d).selected_category < old(d).categories@.len(),
    ensures
        code == KeyCode::PageDown && old(d).active is Secrets ==> final(d).selected == (if old(
            d,
        ).selected + 10 < old(d).shown@.len() {
            old(d).selected + 10
        } else {
            old(d).shown@.len() - 1
        }),
        code == KeyCode::PageUp && old(d).active is Secrets ==> final(d).selected == (if old(d).selected
            >= 10 {
            old(d).selected - 10
        } else {
            0
        }),
        code == KeyCode::PageDown && old(d).active is Categories ==> final(d).selected_category == (if old(
            d,
        ).selected_category + 5 < old(d).categories@.len() {
            old(d).selected_category + 5
        } else {
            old(d).categories@.len() - 1
        }),
        code == KeyCode::PageUp && old(d).active is Categories ==> final(d).selected_category == (if old(
            d,
        ).selected_category >= 5 {
            old(d).selected_category - 5
        } else {
            0
        }),
        code == KeyCode::BackTab ==> final(d).active == (match old(d).active {
            ActiveBlock::Categories => ActiveBlock::Details,
            ActiveBlock::Secrets => ActiveBlock::Categories,
            ActiveBlock::Details => ActiveBlock::Secrets,
        }),
{
    let v = old(d)@;
    let w = final(d)@;
    assert(v.selected == old(d).selected && w.selected == final(d).selected);
    assert(v.shown.len() == old(d).shown@.len() && v.categories.len() == old(d).categories@.len());
    assert(v.selected_category == old(d).selected_category && w.selected_category
        == final(d).selected_category);
    assert(v.active == old(d).active && w.active == final(d).active);
    assert(v.searching == old(d).searching);
}

/// A setting that is no number is saved as the usual one; the escape key saves nothing.
pub proof fn law_settings_that_are_no_numbers_are_the_usual_ones(
    f: &mut SettingsForm,
    code: KeyCode,
    o: SettingsOutcome,
)
    requires
        call_ensures(handle_settings_input, (f, code), o),
    ensures
        code == KeyCode::Esc ==> o is Close,
        o is Save ==> code == KeyCode::Enter,
        o is Save && unsigned_value(old(f).idle_timeout@, u64::MAX as nat) is None
            ==> o->config.idle_timeout_seconds == 300,
        o is Save && unsigned_value(old(f).clipboard_clear@, u64::MAX as nat) is None
            ==> o->config.clipboard_clear_seconds == 5,
        o is Save && unsigned_value(old(f).gen_length@, usize::MAX as nat) is None
            ==> o->config.generator.length == 20,
        o is Save && unsigned_value(old(f).history_retention@, u64::MAX as nat) is None
            ==> o->config.history_retention == 0,
{
    let v = old(f)@;
    assert(v.idle_timeout == old(f).idle_timeout@ && v.clipboard_clear == old(f).clipboard_clear@);
    assert(v.gen_length == old(f).gen_length@ && v.history_retention == old(f).history_retention@);
}

/// On the duplicates screen the arrows move within a group and between groups, and stop at the
/// ends.
pub proof fn law_duplicates_are_moved_about(
    s: &mut DuplicateScreen,
    vault: &mut Vault,
    key: &Option<[u8; 32]>,
    code: KeyCode,
    now: &str,
    cap: usize,
    o: DuplicateOutcome,
)
    requires
        old(s).wf(),
        old(s).groups@.len() > 0,
        call_ensures(handle_deduplicate_input, (s, vault, key, code, now, cap), o),
    ensures
        code == KeyCode::Down ==> final(s).group == old(s).group && final(s).item == (if old(s).item + 1
            < old(s).groups@[old(s).group as int]@.len() {
            old(s).item + 1
        } else {
            old(s).item as int
        }),
        code == KeyCode::Up ==> final(s).group == old(s).group && final(s).item == (if old(s).item > 0 {
            old(s).item - 1
        } else {
            0
        }),
        code == KeyCode::Right && old(s).group + 1 < old(s).groups@.len() ==> final(s).group
            == old(s).group + 1 && final(s).item == 0,
        code == KeyCode::Left && old(s).group > 0 ==> final(s).group == old(s).group - 1
            && final(s).item == 0,
{
}

/// The help scrolls by a line or by five, not above its start, and closing it starts over.
pub proof fn law_help_scrolls(scroll: u16, code: KeyCode, r: (u16, bool))
    requires
        call_ensures(handle_help_input, (scroll, code), r),
    ensures
        code == KeyCode::Down && scroll < 65535 ==> r == ((scroll + 1) as u16, false),
        code == KeyCode::Up && scroll > 0 ==> r == ((scroll - 1) as u16, false),
        code == KeyCode::Up && scroll == 0 ==> r == (0u16, false),
        code == KeyCode::PageDown && scroll <= 65530 ==> r == ((scroll + 5) as u16, false),
        code == KeyCode::PageUp && scroll >= 5 ==> r == ((scroll - 5) as u16, false),
        code == KeyCode::Home ==> r == (0u16, false),
        code == KeyCode::Esc ==> r == (0u16, true),
{
}

/// The bar of a score has as many marks as the score has points, of five.
pub proof fn law_score_bar_shows_the_score(score: u8, s: String)
    requires
        score <= 5,
        call_ensures(score_bar, (score,), s),
    ensures
        s@ == "Score: "@ + decimal(score as nat) + "/5  ["@ + Seq::new(score as nat, |i: int| '█')
            + Seq::new((5 - score) as nat, |i: int| '░') + "]"@,
{
    assert(crate::forms::repeated('█', score as nat) =~= Seq::new(score as nat, |i: int| '█'));
    assert(crate::forms::repeated('░', (5 - score) as nat) =~= Seq::new(
        (5 - score) as nat,
        |i: int| '░',
    ));
}

} // verus!
