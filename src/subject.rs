use vstd::prelude::*;

use crate::date::{date_from_text, Date};
use crate::error::LetterError;
use crate::text::{
    chars_of, find_char, find_in, nonblank, nonblank_in, opt_view, trim, trim_bounds,
};

verus! {

/// The full-width colon that CJK text writes.
pub const WIDE_COLON: char = '\u{ff1a}';

/// Splits off the title after the first `:`, or, where there is none, after the first
/// full-width colon.
pub open spec fn split_title(t: Seq<char>) -> (Seq<char>, Option<Seq<char>>) {
    match find_char(t, ':') {
        Some(i) => (t.subrange(0, i), Some(t.subrange(i + 1, t.len() as int))),
        None => match find_char(t, WIDE_COLON) {
            Some(i) => (t.subrange(0, i), Some(t.subrange(i + 1, t.len() as int))),
            None => (t, None),
        },
    }
}

/// The date of `rest`, which must be a day or month of the calendar.
pub open spec fn dated(
    rest: Seq<char>,
    title: Option<Seq<char>>,
    action: Option<Seq<char>>,
) -> Result<(Date, Option<Seq<char>>, Option<Seq<char>>), LetterError> {
    match date_from_text(trim(rest), '/') {
        Some(d) => if d.is_valid() {
            Ok((d, title, action))
        } else {
            Err(LetterError::InvalidDate)
        },
        None => Err(LetterError::InvalidDate),
    }
}

/// What a subject `[ACTION] YEAR/MONTH[/DAY][: TITLE]` says: its date, its title and its
/// action, each of the last two absent when blank.
pub open spec fn subject_parts(s: Seq<char>) -> Result<
    (Date, Option<Seq<char>>, Option<Seq<char>>),
    LetterError,
> {
    let (head0, title_raw) = split_title(trim(s));
    let head = trim(head0);
    let title = match title_raw {
        Some(x) => nonblank(x),
        None => None,
    };
    match find_char(head, ']') {
        Some(j) => {
            let pre = head.subrange(0, j);
            match find_char(pre, '[') {
                Some(k) => dated(
                    head.subrange(j + 1, head.len() as int),
                    title,
                    nonblank(pre.subrange(k + 1, j)),
                ),
                None => Err(LetterError::UnmatchedBrackets),
            }
        },
        None => if find_char(head, '[') is Some {
            Err(LetterError::UnmatchedBrackets)
        } else {
            dated(head, title, None)
        },
    }
}

/// Parses a subject into its date, title and action.
pub fn parse_subject_text(subject: &str) -> (r: Result<
    (Date, Option<String>, Option<String>),
    LetterError,
>)
    ensures
        match subject_parts(subject@) {
            Ok((d, t, a)) => r matches Ok((rd, rt, ra)) && rd == d && opt_view(rt) == t
                && opt_view(ra) == a,
            Err(e) => r == Err::<(Date, Option<String>, Option<String>), LetterError>(e),
        },
{
    let v = chars_of(subject);
    let ghost s = subject@;
    assert(v@.subrange(0, v@.len() as int) =~= s);
    let (a, b) = trim_bounds(&v, 0, v.len());
    let ghost t = v@.subrange(a as int, b as int);
    // The title follows the first colon.
    let colon = match find_in(&v, a, b, ':') {
        Some(i) => Some(i),
        None => find_in(&v, a, b, WIDE_COLON),
    };
    let (head_hi, title) = match colon {
        Some(i) => {
            assert(t.subrange(0, i - a) =~= v@.subrange(a as int, i as int));
            assert(t.subrange(i - a + 1, t.len() as int) =~= v@.subrange(i + 1, b as int));
            (i, nonblank_in(&v, i + 1, b))
        },
        None => (b, None),
    };
    let (h0, h1) = trim_bounds(&v, a, head_hi);
    let ghost head = v@.subrange(h0 as int, h1 as int);
    // The action stands in brackets before the date.
    let (action, r0) = match find_in(&v, h0, h1, ']') {
        Some(j) => {
            assert(head.subrange(0, j - h0) =~= v@.subrange(h0 as int, j as int));
            match find_in(&v, h0, j, '[') {
                Some(k) => {
                    assert(head.subrange(0, j - h0).subrange(k - h0 + 1, j - h0)
                        =~= v@.subrange(k + 1, j as int));
                    assert(head.subrange(j - h0 + 1, head.len() as int) =~= v@.subrange(
                        j + 1,
                        h1 as int,
                    ));
                    (nonblank_in(&v, k + 1, j), j + 1)
                },
                None => {
                    return Err(LetterError::UnmatchedBrackets);
                },
            }
        },
        None => {
            if find_in(&v, h0, h1, '[').is_some() {
                return Err(LetterError::UnmatchedBrackets);
            }
            (None, h0)
        },
    };
    let (d0, d1) = trim_bounds(&v, r0, h1);
    match Date::parse_in(&v, d0, d1, '/') {
        Some(d) => {
            if d.check_valid() {
                Ok((d, title, action))
            } else {
                Err(LetterError::InvalidDate)
            }
        },
        None => Err(LetterError::InvalidDate),
    }
}

} // verus!
