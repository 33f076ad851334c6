use loveletter::address::MailAddress;
use loveletter::date::Date;
use loveletter::letter::{parse_letter_filename, LoveLetter};

fn addr(text: &str, email: &str, display: &str) -> MailAddress {
    MailAddress { text: text.to_string(), email: email.to_string(), display: display.to_string() }
}

fn letter(date: Date, title: Option<&str>) -> LoveLetter {
    LoveLetter {
        from: addr("Shengyu Zhang <gege@example.com>", "gege@example.com", "Shengyu Zhang"),
        to: addr("Love Letter <loveletter@example.com>", "loveletter@example.com", "Love Letter"),
        from_meimei_if_true_and_gege_if_false: false,
        created_at: Some(1743638400),
        updated_at: Some(1743638400 + 3600),
        date,
        title: title.map(|t| t.to_string()),
        content: "<p>hi</p>".to_string(),
    }
}

#[test]
fn filename_without_title() {
    let l = letter(Date { year: 2025, month: 4, day: Some(3) }, None);
    assert_eq!(l.letter_filename(), "2025-04-03.toml");
    let m = letter(Date { year: 2025, month: 4, day: None }, None);
    assert_eq!(m.letter_filename(), "2025-04.toml");
}

#[test]
fn filename_with_title_is_base64() {
    let l = letter(Date { year: 1998, month: 1, day: Some(28) }, Some("Title"));
    assert_eq!(l.letter_filename(), "1998-01-28_VGl0bGU=.toml");
    let c = letter(Date { year: 2025, month: 4, day: Some(3) }, Some("测试数据"));
    assert_eq!(c.letter_filename(), "2025-04-03_5rWL6K-V5pWw5o2u.toml");
}

#[test]
fn filename_round_trip() {
    let cases = [
        (Date { year: 1998, month: 1, day: Some(28) }, Some("Title")),
        (Date { year: 2025, month: 4, day: Some(3) }, Some("测试数据")),
        (Date { year: 2025, month: 4, day: None }, Some("a_b-c.d")),
        (Date { year: 2024, month: 2, day: Some(29) }, None),
        (Date { year: 12345, month: 12, day: Some(31) }, Some("far")),
    ];
    for (date, title) in cases {
        let l = letter(date, title);
        let name = l.letter_filename();
        assert_eq!(parse_letter_filename(&name), Some((date, title.map(|t| t.to_string()))));
    }
}

#[test]
fn filename_rejects_other_names() {
    assert_eq!(parse_letter_filename("index.rst"), None);
    assert_eq!(parse_letter_filename("2025-02-30.toml"), None);
    assert_eq!(parse_letter_filename("2025-04-03_!!.toml"), None);
    assert_eq!(parse_letter_filename("toml"), None);
}

#[test]
fn document_file_name_is_year() {
    let l = letter(Date { year: 2025, month: 4, day: Some(3) }, None);
    assert_eq!(l.rstdoc_filename(), "2025.rst");
}

#[test]
fn author_follows_role() {
    let mut l = letter(Date { year: 2025, month: 4, day: Some(3) }, None);
    assert_eq!(l.author(), "哥哥");
    l.from_meimei_if_true_and_gege_if_false = true;
    assert_eq!(l.author(), "妹妹");
}

#[test]
fn heading_text() {
    let l = letter(Date { year: 2025, month: 4, day: Some(3) }, None);
    let delim = "=".repeat(26);
    assert_eq!(
        l.rstdoc_heading(),
        format!("{}\n💌  Love Letters from 2025\n{}\n\n", delim, delim)
    );
}

#[test]
fn section_text() {
    let l = letter(Date { year: 2025, month: 4, day: Some(3) }, Some("测试数据"));
    let expected = format!(
        "2025-04-03: 测试数据\n{}\n\n.. loveletter:: _\n   :date: 2025-04-03\n   :nick: Shengyu Zhang\n   :author: 哥哥\n   :createdat: 2025-04-03\n   :updatedat: 2025-04-03\n\n   .. raw:: html\n\n      <p>hi</p>\n\n",
        "=".repeat(20)
    );
    assert_eq!(l.rstdoc_section(), expected);
}

#[test]
fn section_without_timestamps() {
    let mut l = letter(Date { year: 1998, month: 1, day: None }, None);
    l.created_at = None;
    l.updated_at = Some(-86400);
    let s = l.rstdoc_section();
    assert!(s.starts_with("1998-01\n=======\n"));
    assert!(s.contains("   :createdat: \n   :updatedat: 1969-12-31\n"));
}

#[test]
fn letter_describes_itself() {
    assert_eq!(letter(Date { year: 1998, month: 1, day: Some(28) }, Some("Title")).describe(), "<1998-01-28: Title>");
    assert_eq!(letter(Date { year: 1998, month: 1, day: None }, None).describe(), "<1998-01>");
}

#[test]
fn section_with_timestamp_out_of_range() {
    let mut l = letter(Date { year: 1998, month: 1, day: Some(28) }, None);
    l.created_at = Some(i64::MAX);
    let s = l.rstdoc_section();
    assert!(s.contains("   :createdat: \n   :updatedat: 2025-04-03\n"));
}
