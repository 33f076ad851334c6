use vstd::prelude::*;

use base64::engine::general_purpose::URL_SAFE;
use base64::Engine;
use unicode_width::UnicodeWidthStr;

use crate::address::MailAddress;
use crate::date::{date_char, lemma_date_text_reads, Date};
use crate::text::{
    append_str, chars_of, find_char, find_in, int_text, lemma_find_absent, lemma_find_concat,
    opt_view, push_char, repeat, repeat_char, signed_text, string_of,
};

verus! {

/// The text of `s`'s UTF-8 bytes in base64's URL-safe alphabet, with padding.
pub uninterp spec fn url_safe_b64(s: Seq<char>) -> Seq<char>;

/// The columns that `s` takes in a CJK context.
pub uninterp spec fn cjk_width(s: Seq<char>) -> nat;

/// The UTC calendar day, `YYYY-MM-DD`, of a count of seconds since the Unix epoch, where
/// chrono's range has it.
pub uninterp spec fn utc_day_text(secs: int) -> Option<Seq<char>>;

/// Relies on base64's `URL_SAFE` engine: `encode` writes the bytes of the text.
#[verifier::external_body]
fn encode_title(t: &str) -> (r: String)
    ensures
        r@ == url_safe_b64(t@),
{
    URL_SAFE.encode(t)
}

/// Relies on base64's `URL_SAFE` engine, whose `decode` gives back the bytes that `encode`
/// wrote, and on `String::from_utf8`, which gives back the text of those bytes.
#[verifier::external_body]
fn decode_title(s: &str) -> (r: Option<String>)
    ensures
        forall|t: Seq<char>| #[trigger] url_safe_b64(t) == s@ ==> opt_view(r) == Some(t),
{
    match URL_SAFE.decode(s) {
        Ok(bytes) => String::from_utf8(bytes).ok(),
        Err(_) => None,
    }
}

/// Relies on unicode-width's `UnicodeWidthStr::width_cjk`.
#[verifier::external_body]
fn width_cjk(s: &str) -> (r: usize)
    ensures
        r as nat == cjk_width(s@),
{
    s.width_cjk()
}

/// Relies on chrono's `DateTime::from_timestamp` and its `%Y-%m-%d` format.
#[verifier::external_body]
fn utc_day(secs: i64) -> (r: Option<String>)
    ensures
        opt_view(r) == utc_day_text(secs as int),
{
    match chrono::DateTime::from_timestamp(secs, 0) {
        Some(t) => Some(t.format("%Y-%m-%d").to_string()),
        None => None,
    }
}

/// The name that marks letters from her.
pub const MEIMEI: &'static str = "妹妹";

/// The name that marks letters from him.
pub const GEGE: &'static str = "哥哥";

pub open spec fn toml_ext() -> Seq<char> {
    seq!['.', 't', 'o', 'm', 'l']
}

/// The file name of the record for a date and a title.
pub open spec fn letter_file_name(date: Date, title: Option<Seq<char>>) -> Seq<char> {
    match title {
        Some(t) => date.display() + seq!['_'] + url_safe_b64(t) + toml_ext(),
        None => date.display() + toml_ext(),
    }
}

/// The file name of the document of a year, `YEAR.rst`.
pub open spec fn rstdoc_name(year: int) -> Seq<char> {
    signed_text(year) + seq!['.', 'r', 's', 't']
}

/// `YEAR.rst`.
pub fn year_document_name(year: i32) -> (r: String)
    ensures
        r@ == rstdoc_name(year as int),
{
    let mut r = int_text(year);
    push_char(&mut r, '.');
    push_char(&mut r, 'r');
    push_char(&mut r, 's');
    push_char(&mut r, 't');
    assert(r@ =~= rstdoc_name(year as int));
    r
}

pub open spec fn author_of(meimei: bool) -> Seq<char> {
    if meimei {
        MEIMEI@
    } else {
        GEGE@
    }
}

/// The day of a timestamp, or nothing where there is none.
pub open spec fn stamp_text(t: Option<i64>) -> Seq<char> {
    match t {
        Some(s) => match utc_day_text(s as int) {
            Some(d) => d,
            None => Seq::empty(),
        },
        None => Seq::empty(),
    }
}

/// The heading of the document of a year.
pub open spec fn heading_text(year: int) -> Seq<char> {
    let title = "💌  Love Letters from "@ + signed_text(year);
    let delim = repeat('=', cjk_width(title));
    delim + seq!['\n'] + title + seq!['\n'] + delim + seq!['\n', '\n']
}

/// One record, archived: an authorised letter with its date and content.
#[derive(Debug, Clone, PartialEq, Eq)]
pub struct LoveLetter {
    pub from: MailAddress,
    pub to: MailAddress,
    pub from_meimei_if_true_and_gege_if_false: bool,
    /// When the record was first written, in seconds since the Unix epoch.
    pub created_at: Option<i64>,
    /// When the record was last written, in seconds since the Unix epoch.
    pub updated_at: Option<i64>,
    pub date: Date,
    pub title: Option<String>,
    pub content: String,
}

impl LoveLetter {
    pub open spec fn file_name(self) -> Seq<char> {
        letter_file_name(self.date, opt_view(self.title))
    }

    pub open spec fn section_title(self) -> Seq<char> {
        match self.title {
            Some(t) => self.date.display() + seq![':', ' '] + t@,
            None => self.date.display(),
        }
    }

    /// The section of the year's document that shows this letter.
    pub open spec fn section_text(self) -> Seq<char> {
        let title = self.section_title();
        title + seq!['\n'] + repeat('=', cjk_width(title)) + seq!['\n'] + "\n.. loveletter:: _\n   :date: "@
            + self.date.display() + "\n   :nick: "@ + self.from.display@ + "\n   :author: "@
            + author_of(self.from_meimei_if_true_and_gege_if_false) + "\n   :createdat: "@
            + stamp_text(self.created_at) + "\n   :updatedat: "@ + stamp_text(self.updated_at)
            + "\n\n   .. raw:: html\n\n      "@ + self.content@ + seq!['\n', '\n']
    }

    /// How logs name the letter: `<DATE: TITLE>`, or `<DATE>` without a title.
    pub fn describe(&self) -> (r: String)
        ensures
            r@ == seq!['<'] + self.section_title() + seq!['>'],
    {
        let mut r = String::new();
        push_char(&mut r, '<');
        let d = self.date.to_text();
        append_str(&mut r, d.as_str());
        match &self.title {
            Some(t) => {
                push_char(&mut r, ':');
                push_char(&mut r, ' ');
                append_str(&mut r, t.as_str());
            },
            None => {},
        }
        push_char(&mut r, '>');
        assert(r@ =~= seq!['<'] + self.section_title() + seq!['>']);
        r
    }

    /// The role of the sender, as the documents name it.
    pub fn author(&self) -> (r: &'static str)
        ensures
            r@ == author_of(self.from_meimei_if_true_and_gege_if_false),
    {
        if self.from_meimei_if_true_and_gege_if_false {
            MEIMEI
        } else {
            GEGE
        }
    }

    /// `DATE.toml`, or `DATE_TITLE.toml` with the title in URL-safe base64.
    pub fn letter_filename(&self) -> (r: String)
        ensures
            r@ == self.file_name(),
    {
        let mut r = self.date.to_text();
        match &self.title {
            Some(t) => {
                push_char(&mut r, '_');
                let e = encode_title(t.as_str());
                append_str(&mut r, e.as_str());
            },
            None => {},
        }
        push_char(&mut r, '.');
        push_char(&mut r, 't');
        push_char(&mut r, 'o');
        push_char(&mut r, 'm');
        push_char(&mut r, 'l');
        assert(r@ =~= self.file_name());
        r
    }

    /// The file name of the document for the letter's year.
    pub fn rstdoc_filename(&self) -> (r: String)
        ensures
            r@ == rstdoc_name(self.date.year as int),
    {
        year_document_name(self.date.year)
    }

    /// The heading of the document of the letter's year.
    pub fn rstdoc_heading(&self) -> (r: String)
        ensures
            r@ == heading_text(self.date.year as int),
    {
        let mut title = String::new();
        append_str(&mut title, "💌  Love Letters from ");
        let y = int_text(self.date.year);
        append_str(&mut title, y.as_str());
        let delim = repeat_char('=', width_cjk(title.as_str()));
        let mut r = String::new();
        append_str(&mut r, delim.as_str());
        push_char(&mut r, '\n');
        append_str(&mut r, title.as_str());
        push_char(&mut r, '\n');
        append_str(&mut r, delim.as_str());
        push_char(&mut r, '\n');
        push_char(&mut r, '\n');
        assert(r@ =~= heading_text(self.date.year as int));
        r
    }

    /// The letter as a section of its year's document.
    pub fn rstdoc_section(&self) -> (r: String)
        ensures
            r@ == self.section_text(),
    {
        let date = self.date.to_text();
        let mut title = date.clone();
        match &self.title {
            Some(t) => {
                push_char(&mut title, ':');
                push_char(&mut title, ' ');
                append_str(&mut title, t.as_str());
            },
            None => {},
        }
        assert(title@ =~= self.section_title());
        let mut buf = String::new();
        append_str(&mut buf, title.as_str());
        push_char(&mut buf, '\n');
        let delim = repeat_char('=', width_cjk(title.as_str()));
        append_str(&mut buf, delim.as_str());
        push_char(&mut buf, '\n');
        append_str(&mut buf, "\n.. loveletter:: _\n   :date: ");
        append_str(&mut buf, date.as_str());
        append_str(&mut buf, "\n   :nick: ");
        append_str(&mut buf, self.from.display.as_str());
        append_str(&mut buf, "\n   :author: ");
        append_str(&mut buf, self.author());
        append_str(&mut buf, "\n   :createdat: ");
        match self.created_at {
            Some(s) => match utc_day(s) {
                Some(t) => append_str(&mut buf, t.as_str()),
                None => {},
            },
            None => {},
        }
        append_str(&mut buf, "\n   :updatedat: ");
        match self.updated_at {
            Some(s) => match utc_day(s) {
                Some(t) => append_str(&mut buf, t.as_str()),
                None => {},
            },
            None => {},
        }
        append_str(&mut buf, "\n\n   .. raw:: html\n\n      ");
        append_str(&mut buf, self.content.as_str());
        push_char(&mut buf, '\n');
        push_char(&mut buf, '\n');
        assert(buf@ =~= self.section_text());
        buf
    }
}


proof fn lemma_name_parts(d: Date, t: Option<Seq<char>>)
    requires
        d.is_valid(),
        d.year >= 0,
    ensures
        ({
            let name = letter_file_name(d, t);
            let stem = name.subrange(0, name.len() - 5);
            &&& name.len() >= 5
            &&& name.subrange(name.len() - 5, name.len() as int) == toml_ext()
            &&& match t {
                Some(x) => find_char(stem, '_') == Some(d.text().len() as int) && stem.subrange(
                    0,
                    d.text().len() as int,
                ) == d.text() && stem.subrange(d.text().len() as int + 1, stem.len() as int)
                    == url_safe_b64(x),
                None => find_char(stem, '_') is None && stem == d.text(),
            }
        }),
{
    lemma_date_text_reads(d);
    let dt = d.text();
    assert forall|i: int| 0 <= i < dt.len() implies #[trigger] dt[i] != '_' by {
        assert(date_char(dt[i]));
    }
    lemma_find_absent(dt, '_');
    let name = letter_file_name(d, t);
    match t {
        Some(x) => {
            let b = url_safe_b64(x);
            let stem = dt + (seq!['_'] + b);
            assert(name =~= stem + toml_ext());
            assert(name.subrange(0, name.len() - 5) =~= stem);
            assert(name.subrange(name.len() - 5, name.len() as int) =~= toml_ext());
            lemma_find_concat(dt, seq!['_'] + b, '_');
            assert(stem.subrange(0, dt.len() as int) =~= dt);
            assert(stem.subrange(dt.len() as int + 1, stem.len() as int) =~= b);
        },
        None => {
            assert(name.subrange(0, name.len() - 5) =~= dt);
            assert(name.subrange(name.len() - 5, name.len() as int) =~= toml_ext());
        },
    }
}

/// Reads a record's file name back into its date and title.
///
/// Every file name that `letter_filename` gives for a date of the calendar from year 0 on
/// reads back as exactly that date and title.
pub fn parse_letter_filename(name: &str) -> (r: Option<(Date, Option<String>)>)
    ensures
        forall|d: Date, t: Option<Seq<char>>|
            d.is_valid() && d.year >= 0 && name@ == #[trigger] letter_file_name(d, t) ==> (
            r matches Some((rd, rt)) && rd == d && opt_view(rt) == t),
        r matches Some((rd, _)) ==> rd.is_valid(),
{
    let v = chars_of(name);
    let n = v.len();
    let r = if n < 5 || v[n - 5] != '.' || v[n - 4] != 't' || v[n - 3] != 'o' || v[n - 2] != 'm'
        || v[n - 1] != 'l' {
        None
    } else {
        let stem = n - 5;
        match find_in(&v, 0, stem, '_') {
            Some(k) => {
                match Date::parse_in(&v, 0, k, '-') {
                    Some(d) => {
                        if d.check_valid() {
                            let b = string_of(&v, k + 1, stem);
                            match decode_title(b.as_str()) {
                                Some(t) => Some((d, Some(t))),
                                None => None,
                            }
                        } else {
                            None
                        }
                    },
                    None => None,
                }
            },
            None => {
                match Date::parse_in(&v, 0, stem, '-') {
                    Some(d) => {
                        if d.check_valid() {
                            Some((d, None))
                        } else {
                            None
                        }
                    },
                    None => None,
                }
            },
        }
    };
    proof {
        assert forall|d: Date, t: Option<Seq<char>>|
            d.is_valid() && d.year >= 0 && name@ == #[trigger] letter_file_name(d, t) implies (
            r matches Some((rd, rt)) && rd == d && opt_view(rt) == t) by {
            lemma_name_parts(d, t);
            lemma_date_text_reads(d);
            let nm = name@;
            assert(nm.subrange(nm.len() - 5, nm.len() as int)[0] == nm[nm.len() - 5]);
            assert(nm.subrange(nm.len() - 5, nm.len() as int)[1] == nm[nm.len() - 4]);
            assert(nm.subrange(nm.len() - 5, nm.len() as int)[2] == nm[nm.len() - 3]);
            assert(nm.subrange(nm.len() - 5, nm.len() as int)[3] == nm[nm.len() - 2]);
            assert(nm.subrange(nm.len() - 5, nm.len() as int)[4] == nm[nm.len() - 1]);
            let stem = nm.subrange(0, nm.len() - 5);
            assert(v@.subrange(0, n - 5) == stem);
            let k = d.text().len() as int;
            if t is Some {
                assert(v@.subrange(0, k) =~= stem.subrange(0, k));
                assert(v@.subrange(k + 1, n - 5) =~= stem.subrange(k + 1, stem.len() as int));
            }
        }
    }
    r
}

} // verus!
