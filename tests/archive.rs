use loveletter::address::{EmailAddressList, MailAddress};
use loveletter::archive::{Archive, INDEX_DOCUMENT};
use loveletter::cfg::{i32_3, no, u64_60, yes, ArchiveCfg};
use loveletter::date::Date;
use loveletter::error::LetterError;

fn addr(text: &str, email: &str, display: &str) -> MailAddress {
    MailAddress { text: text.to_string(), email: email.to_string(), display: display.to_string() }
}

fn archive(overwrite: bool) -> Archive {
    let mut from = EmailAddressList::new();
    from.0.push(addr("妹妹 <meimei@example.com>", "meimei@example.com", "妹妹"));
    from.0.push(addr("哥哥 <gege@example.com>", "gege@example.com", "哥哥"));
    from.0.push(addr("Stranger <who@example.com>", "who@example.com", "Stranger"));
    let mut to = EmailAddressList::new();
    to.0.push(addr("Love Letter <loveletter@example.com>", "loveletter@example.com", "Love Letter"));
    Archive::new(ArchiveCfg {
        letter_dir: "/data/letters".to_string(),
        rstdoc_dir: "/data/docs/".to_string(),
        create_dirs: yes(),
        git_no_push: yes(),
        git_pre_cleanup: no(),
        git_retry: i32_3(),
        overwrite,
        allowed_from_addrs: from,
        allowed_to_addrs: to,
    })
}

fn gege() -> MailAddress {
    addr("Shengyu Zhang <gege@example.com>", "gege@example.com", "Shengyu Zhang")
}

fn recipient() -> MailAddress {
    addr("loveletter@example.com", "loveletter@example.com", "")
}

#[test]
fn config_defaults() {
    assert!(yes());
    assert!(!no());
    assert_eq!(i32_3(), 3);
    assert_eq!(u64_60(), 60);
}

#[test]
fn compose_resolves_addresses_and_role() {
    let a = archive(false);
    let (letter, action) = a
        .compose_letter(&gege(), &recipient(), "2025/04/03: 测试数据", "<p>hi</p>".to_string(), Some(1743638400))
        .unwrap();
    assert_eq!(action, None);
    assert_eq!(letter.from, gege());
    assert_eq!(letter.to, addr("Love Letter <loveletter@example.com>", "loveletter@example.com", "Love Letter"));
    assert!(!letter.from_meimei_if_true_and_gege_if_false);
    assert_eq!(letter.created_at, Some(1743638400));
    assert_eq!(letter.updated_at, Some(1743638400));
    assert_eq!(letter.date, Date { year: 2025, month: 4, day: Some(3) });
    assert_eq!(letter.title, Some("测试数据".to_string()));
    assert_eq!(letter.content, "<p>hi</p>");
}

#[test]
fn compose_matches_identity_ignoring_case() {
    let a = archive(false);
    let meimei = addr("MeiMei@Example.com", "MeiMei@Example.com", "");
    let (letter, _) = a.compose_letter(&meimei, &recipient(), "2025/04/03", String::new(), None).unwrap();
    assert!(letter.from_meimei_if_true_and_gege_if_false);
    assert_eq!(letter.from, addr("妹妹 <meimei@example.com>", "meimei@example.com", "妹妹"));
}

#[test]
fn unlisted_sender_is_refused_whatever_its_name() {
    let a = archive(false);
    for name in ["妹妹", "哥哥", ""] {
        let who = addr(&format!("{} <intruder@example.com>", name), "intruder@example.com", name);
        assert_eq!(
            a.compose_letter(&who, &recipient(), "2025/04/03", String::new(), None),
            Err(LetterError::SenderNotAllowed(who.text.clone()))
        );
    }
}

#[test]
fn unlisted_recipient_is_refused() {
    let a = archive(false);
    let other = addr("other@example.com", "other@example.com", "");
    assert_eq!(
        a.compose_letter(&gege(), &other, "2025/04/03", String::new(), None),
        Err(LetterError::RecipientNotAllowed("other@example.com".to_string()))
    );
}

#[test]
fn unknown_role_is_refused() {
    let a = archive(false);
    let who = addr("who@example.com", "who@example.com", "");
    assert_eq!(
        a.compose_letter(&who, &recipient(), "2025/04/03", String::new(), None),
        Err(LetterError::UnknownRole("Stranger".to_string()))
    );
    assert_eq!(a.is_from_meimei_or_gege(&who), Err(LetterError::UnknownRole("Stranger".to_string())));
    assert_eq!(a.is_from_meimei_or_gege(&gege()), Ok(false));
}

#[test]
fn bad_subject_is_refused_before_role() {
    let a = archive(false);
    let who = addr("who@example.com", "who@example.com", "");
    assert_eq!(
        a.compose_letter(&who, &recipient(), "[edit 2025/04/03", String::new(), None),
        Err(LetterError::UnmatchedBrackets)
    );
}

#[test]
fn second_plain_upsert_conflicts() {
    let a = archive(false);
    let (first, action) = a
        .compose_letter(&gege(), &recipient(), "2025/04/03: 测试数据", "one".to_string(), Some(100))
        .unwrap();
    let written = a.settle_letter(first.clone(), &action, None).unwrap();
    assert_eq!(written, first);
    let (second, action2) = a
        .compose_letter(&gege(), &recipient(), "2025/04/03: 测试数据", "two".to_string(), Some(200))
        .unwrap();
    assert_eq!(
        a.settle_letter(second, &action2, Some(&written)),
        Err(LetterError::Conflict("2025-04-03_5rWL6K-V5pWw5o2u.toml".to_string()))
    );
}

#[test]
fn overwrite_replaces_and_keeps_creation() {
    let a = archive(true);
    let (first, _) = a.compose_letter(&gege(), &recipient(), "2025/04/03", "one".to_string(), Some(100)).unwrap();
    let (second, action) = a.compose_letter(&gege(), &recipient(), "2025/04/03", "two".to_string(), Some(200)).unwrap();
    let w = a.settle_letter(second, &action, Some(&first)).unwrap();
    assert_eq!(w.created_at, Some(100));
    assert_eq!(w.updated_at, Some(200));
    assert_eq!(w.content, "two");
}

#[test]
fn edit_keeps_creation_time() {
    let a = archive(false);
    let (first, _) = a.compose_letter(&gege(), &recipient(), "2025/04/03", "one".to_string(), Some(100)).unwrap();
    let (edit, action) = a
        .compose_letter(&gege(), &recipient(), "[edit] 2025/04/03", "two".to_string(), Some(200))
        .unwrap();
    assert_eq!(action, Some("edit".to_string()));
    let w = a.settle_letter(edit, &action, Some(&first)).unwrap();
    assert_eq!(w.created_at, Some(100));
    assert_eq!(w.updated_at, Some(200));
    assert_eq!(w.content, "two");
}

#[test]
fn edit_of_missing_record_creates_it() {
    let a = archive(false);
    let (edit, action) = a
        .compose_letter(&gege(), &recipient(), "[edit] 2025/04/03", "two".to_string(), Some(200))
        .unwrap();
    let w = a.settle_letter(edit.clone(), &action, None).unwrap();
    assert_eq!(w, edit);
}

#[test]
fn unknown_action_is_refused() {
    let a = archive(false);
    let (l, action) = a
        .compose_letter(&gege(), &recipient(), "[delete] 2025/04/03", String::new(), None)
        .unwrap();
    assert_eq!(a.settle_letter(l, &action, None), Err(LetterError::UnknownAction("delete".to_string())));
}

#[test]
fn paths() {
    let a = archive(false);
    let (l, _) = a.compose_letter(&gege(), &recipient(), "2025/04/03", String::new(), None).unwrap();
    assert_eq!(a.letter_path(&l), "/data/letters/2025-04-03.toml");
    assert_eq!(a.rstdoc_path(&l), "/data/docs/2025.rst");
    assert_eq!(a.rstdoc_year_path(1998), "/data/docs/1998.rst");
    assert_eq!(a.rstdoc_index_path(), "/data/docs/index.rst");
}

#[test]
fn commit_message_names_subject() {
    assert_eq!(Archive::letter_commit_message("2025/04/03: hi"), "[loveletter] 2025/04/03: hi");
}

#[test]
fn index_document_lists_everything() {
    assert!(INDEX_DOCUMENT.starts_with("===============\n💌 Love Letters\n===============\n"));
    assert!(INDEX_DOCUMENT.ends_with(".. toctree::\n   :glob:\n\n   *\n"));
}
