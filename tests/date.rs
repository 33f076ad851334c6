use loveletter::date::Date;
use loveletter::error::LetterError;

#[test]
fn date_from_subject_and_filename() {
    assert_eq!(Date::from_subject("1998/01/28"), Ok(Date { year: 1998, month: 1, day: Some(28) }));
    assert_eq!(Date::from_filename("1998-01-28"), Ok(Date { year: 1998, month: 1, day: Some(28) }));
    assert_eq!(Date::from_filename("2025-04"), Ok(Date { year: 2025, month: 4, day: None }));
    assert_eq!(Date::from_subject("+2025/+4/7"), Ok(Date { year: 2025, month: 4, day: Some(7) }));
    assert_eq!(Date::from_subject("-5/1"), Ok(Date { year: -5, month: 1, day: None }));
}

#[test]
fn date_parse_errors() {
    assert_eq!(Date::from_subject("1998"), Err(LetterError::InvalidDate));
    assert_eq!(Date::from_subject("1998/x"), Err(LetterError::InvalidDate));
    assert_eq!(Date::from_subject("1998/-1"), Err(LetterError::InvalidDate));
    assert_eq!(Date::from_subject("1998/1/"), Err(LetterError::InvalidDate));
    assert_eq!(Date::from_subject("99999999999/1"), Err(LetterError::InvalidDate));
    assert_eq!(Date::from_subject("1998/1/2/3"), Err(LetterError::InvalidDate));
}

#[test]
fn date_parse_consults_calendar() {
    assert_eq!(Date::from_subject("1998/02/31"), Err(LetterError::InvalidDate));
    assert_eq!(Date::parse("2025/13/40", '/'), Err(LetterError::InvalidDate));
    assert_eq!(Date::from_filename("2025-13"), Err(LetterError::InvalidDate));
    assert_eq!(Date::from_filename("2024-02-29"), Ok(Date { year: 2024, month: 2, day: Some(29) }));
}

#[test]
fn date_text() {
    assert_eq!(Date { year: 1998, month: 1, day: Some(28) }.to_text(), "1998-01-28");
    assert_eq!(Date { year: 2025, month: 4, day: None }.to_text(), "2025-04");
    assert_eq!(Date { year: 7, month: 12, day: Some(5) }.to_text(), "0007-12-05");
    assert_eq!(Date { year: 12345, month: 1, day: Some(1) }.to_text(), "+12345-01-01");
    assert_eq!(Date { year: -3, month: 1, day: Some(1) }.to_text(), "-0003-01-01");
}

#[test]
fn invalid_date_text_is_empty() {
    assert_eq!(Date { year: 1998, month: 2, day: Some(30) }.to_text(), "");
    assert_eq!(Date { year: 1998, month: 13, day: None }.to_text(), "");
    assert!(!Date { year: 1998, month: 0, day: None }.check_valid());
    assert!(Date { year: 2024, month: 2, day: Some(29) }.check_valid());
}

#[test]
fn raw_mail_keeps_its_text() {
    let m = loveletter::mail::RawMail::new("Subject: 2025/04/03\r\n\r\nhi");
    assert_eq!(m.data(), "Subject: 2025/04/03\r\n\r\nhi");
}
