use loveletter::address::MailAddress;
use loveletter::date::Date;
use loveletter::docs::{compile_documents, name_less, plan_documents, sort_newest_first, LetterFile};
use loveletter::letter::LoveLetter;

fn addr(display: &str) -> MailAddress {
    MailAddress {
        text: format!("{} <x@example.com>", display),
        email: "x@example.com".to_string(),
        display: display.to_string(),
    }
}

fn file(y: i32, m: u32, d: u32, content: &str) -> LetterFile {
    let letter = LoveLetter {
        from: addr("妹妹"),
        to: addr("Love Letter"),
        from_meimei_if_true_and_gege_if_false: true,
        created_at: None,
        updated_at: None,
        date: Date { year: y, month: m, day: Some(d) },
        title: None,
        content: content.to_string(),
    };
    LetterFile { name: letter.letter_filename(), letter }
}

fn names(files: &[LetterFile]) -> Vec<String> {
    files.iter().map(|f| f.name.clone()).collect()
}

#[test]
fn names_compare_by_characters() {
    assert!(name_less(&"1998-01-28.toml".to_string(), &"2025-04-03.toml".to_string()));
    assert!(!name_less(&"2025-04-03.toml".to_string(), &"1998-01-28.toml".to_string()));
    assert!(name_less(&"2025-04".to_string(), &"2025-04-03".to_string()));
    assert!(!name_less(&"a".to_string(), &"a".to_string()));
}

#[test]
fn sort_puts_newest_first() {
    let files = vec![file(1998, 1, 28, "a"), file(2025, 4, 3, "b"), file(2025, 1, 1, "c"), file(1998, 3, 1, "d")];
    let sorted = sort_newest_first(files);
    assert_eq!(
        names(&sorted),
        vec!["2025-04-03.toml", "2025-01-01.toml", "1998-03-01.toml", "1998-01-28.toml"]
    );
}

#[test]
fn years_land_in_distinct_documents() {
    let files = vec![file(1998, 1, 28, "old"), file(2025, 4, 3, "new")];
    let docs = plan_documents(files);
    assert_eq!(docs.len(), 2);
    assert_eq!(docs[0].year, 2025);
    assert_eq!(docs[1].year, 1998);
    assert!(docs[0].content.contains("new") && !docs[0].content.contains("old"));
    assert!(docs[1].content.contains("old") && !docs[1].content.contains("new"));
    assert!(docs[0].content.starts_with("==========================\n💌  Love Letters from 2025\n"));
}

#[test]
fn year_document_is_newest_first() {
    let files = vec![file(2025, 1, 1, "january"), file(2025, 4, 3, "april"), file(2025, 2, 14, "february")];
    let docs = plan_documents(files);
    assert_eq!(docs.len(), 1);
    let c = &docs[0].content;
    let a = c.find("april").unwrap();
    let f = c.find("february").unwrap();
    let j = c.find("january").unwrap();
    assert!(a < f && f < j);
    assert_eq!(c.matches("Love Letters from").count(), 1);
}

#[test]
fn documents_do_not_depend_on_listing_order() {
    let one = plan_documents(vec![file(1998, 1, 28, "a"), file(2025, 4, 3, "b"), file(2025, 1, 1, "c")]);
    let two = plan_documents(vec![file(2025, 1, 1, "c"), file(1998, 1, 28, "a"), file(2025, 4, 3, "b")]);
    assert_eq!(one.len(), two.len());
    for (x, y) in one.iter().zip(two.iter()) {
        assert_eq!(x.year, y.year);
        assert_eq!(x.content, y.content);
    }
}

#[test]
fn compile_keeps_given_order() {
    let files = vec![file(2025, 1, 1, "first"), file(2025, 4, 3, "second")];
    let docs = compile_documents(&files);
    assert_eq!(docs.len(), 1);
    let expected = format!(
        "{}{}{}",
        files[0].letter.rstdoc_heading(),
        files[0].letter.rstdoc_section(),
        files[1].letter.rstdoc_section()
    );
    assert_eq!(docs[0].content, expected);
}

#[test]
fn no_records_no_documents() {
    assert!(plan_documents(Vec::new()).is_empty());
}
