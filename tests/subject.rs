use loveletter::archive::Archive;
use loveletter::date::Date;
use loveletter::error::LetterError;

#[test]
fn test_archive_parse_subject() {
    assert_eq!(
        Archive::parse_subject("[edit] 1998/01/28: 妹妹生日快乐").unwrap(),
        (
            Date { year: 1998, month: 1, day: Some(28) },
            Some("妹妹生日快乐".to_string()),
            Some("edit".to_string())
        )
    );
    assert_eq!(
        Archive::parse_subject("[edit] 1998/01/28:妹妹生日快乐").unwrap(),
        (
            Date { year: 1998, month: 1, day: Some(28) },
            Some("妹妹生日快乐".to_string()),
            Some("edit".to_string())
        )
    );
    assert_eq!(
        Archive::parse_subject("[edit]1998/01/28:妹妹生日快乐").unwrap(),
        (
            Date { year: 1998, month: 1, day: Some(28) },
            Some("妹妹生日快乐".to_string()),
            Some("edit".to_string())
        )
    );
    assert_eq!(
        Archive::parse_subject("[edit] 1998/01/28").unwrap(),
        (Date { year: 1998, month: 1, day: Some(28) }, None, Some("edit".to_string()))
    );
    assert_eq!(
        Archive::parse_subject("[edit]1998/01/28").unwrap(),
        (Date { year: 1998, month: 1, day: Some(28) }, None, Some("edit".to_string()))
    );
    assert_eq!(
        Archive::parse_subject("[edit] 1998/01/28:").unwrap(),
        (Date { year: 1998, month: 1, day: Some(28) }, None, Some("edit".to_string()))
    );
    assert_eq!(
        Archive::parse_subject("1998/01/28: 妹妹生日快乐").unwrap(),
        (Date { year: 1998, month: 1, day: Some(28) }, Some("妹妹生日快乐".to_string()), None)
    );
    assert_eq!(
        Archive::parse_subject("1998/01/28:妹妹生日快乐").unwrap(),
        (Date { year: 1998, month: 1, day: Some(28) }, Some("妹妹生日快乐".to_string()), None)
    );
    assert_eq!(
        Archive::parse_subject("1998/01/28:").unwrap(),
        (Date { year: 1998, month: 1, day: Some(28) }, None, None)
    );
    assert_eq!(
        Archive::parse_subject("1998/01/28").unwrap(),
        (Date { year: 1998, month: 1, day: Some(28) }, None, None)
    );
}

#[test]
fn subject_with_ascii_title_and_action() {
    assert_eq!(
        Archive::parse_subject("[edit] 1998/01/28: Title").unwrap(),
        (Date { year: 1998, month: 1, day: Some(28) }, Some("Title".to_string()), Some("edit".to_string()))
    );
}

#[test]
fn subject_unmatched_open_bracket_fails() {
    assert_eq!(Archive::parse_subject("[edit 1998/01/28"), Err(LetterError::UnmatchedBrackets));
}

#[test]
fn subject_unmatched_close_bracket_fails() {
    assert_eq!(Archive::parse_subject("edit] 1998/01/28"), Err(LetterError::UnmatchedBrackets));
}

#[test]
fn subject_wide_colon_splits_title() {
    assert_eq!(
        Archive::parse_subject("  2025/04/03：测试数据  ").unwrap(),
        (Date { year: 2025, month: 4, day: Some(3) }, Some("测试数据".to_string()), None)
    );
}

#[test]
fn subject_ascii_colon_comes_first() {
    assert_eq!(Archive::parse_subject("2025/04/03：a: b"), Err(LetterError::InvalidDate));
    assert_eq!(
        Archive::parse_subject("2025/04/03: a：b").unwrap(),
        (Date { year: 2025, month: 4, day: Some(3) }, Some("a：b".to_string()), None)
    );
}

#[test]
fn subject_month_without_day() {
    assert_eq!(
        Archive::parse_subject("2025/4: spring").unwrap(),
        (Date { year: 2025, month: 4, day: None }, Some("spring".to_string()), None)
    );
}

#[test]
fn subject_blank_action_is_absent() {
    assert_eq!(
        Archive::parse_subject("[  ] 2025/04/03").unwrap(),
        (Date { year: 2025, month: 4, day: Some(3) }, None, None)
    );
}

#[test]
fn subject_other_action_is_kept() {
    assert_eq!(
        Archive::parse_subject("[ delete ] 2025/04/03").unwrap(),
        (Date { year: 2025, month: 4, day: Some(3) }, None, Some("delete".to_string()))
    );
}

#[test]
fn subject_invalid_dates_fail() {
    assert_eq!(Archive::parse_subject("1998/02/30"), Err(LetterError::InvalidDate));
    assert_eq!(Archive::parse_subject("1998/13/01"), Err(LetterError::InvalidDate));
    assert_eq!(Archive::parse_subject("1998/00"), Err(LetterError::InvalidDate));
    assert_eq!(Archive::parse_subject("1998"), Err(LetterError::InvalidDate));
    assert_eq!(Archive::parse_subject("hello: world"), Err(LetterError::InvalidDate));
    assert_eq!(Archive::parse_subject(""), Err(LetterError::InvalidDate));
}

#[test]
fn subject_leap_day() {
    assert!(Archive::parse_subject("2024/02/29").is_ok());
    assert_eq!(Archive::parse_subject("2023/02/29"), Err(LetterError::InvalidDate));
    assert_eq!(Archive::parse_subject("1900/02/29"), Err(LetterError::InvalidDate));
    assert!(Archive::parse_subject("2000/02/29").is_ok());
}
