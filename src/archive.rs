use vstd::prelude::*;
use vstd::string::*;

use crate::address::{first_match, lemma_first_match, same_identity, MailAddress};
use crate::cfg::ArchiveCfg;
use crate::date::Date;
use crate::error::LetterError;
use crate::letter::{rstdoc_name, year_document_name, LoveLetter, GEGE, MEIMEI};
use crate::subject::{parse_subject_text, subject_parts};
use crate::text::{append_str, opt_view, push_char, text_eq};

verus! {

/// What becomes of a record that is about to be written.
pub enum Settled {
    /// This record is written.
    Write(LoveLetter),
    /// A record of that file name exists and may not be replaced.
    Conflict,
    /// The message asks for an action that the archive does not know.
    UnknownAction,
}

/// The address to keep: the one given, unless it carries no display name; then the entry's.
pub open spec fn resolved(entry: MailAddress, given: MailAddress) -> MailAddress {
    if given.display@.len() == 0 {
        entry
    } else {
        given
    }
}

/// The role that a display name stands for: `true` for her, `false` for him.
pub open spec fn role_of(name: Seq<char>) -> Option<bool> {
    if name == MEIMEI@ {
        Some(true)
    } else if name == GEGE@ {
        Some(false)
    } else {
        None
    }
}

pub open spec fn edit_action() -> Seq<char> {
    seq!['e', 'd', 'i', 't']
}

/// What a composed record becomes, given the action asked for and the record of the same
/// file name already stored, if any.
pub open spec fn settle_outcome(
    overwrite: bool,
    letter: LoveLetter,
    action: Option<Seq<char>>,
    existing: Option<LoveLetter>,
) -> Settled {
    if action is Some && action->0 != edit_action() {
        Settled::UnknownAction
    } else if existing is Some && action is None && !overwrite {
        Settled::Conflict
    } else {
        match existing {
            Some(e) => Settled::Write(LoveLetter { created_at: e.created_at, ..letter }),
            None => Settled::Write(letter),
        }
    }
}

/// `dir` joined with a relative `name`, as `PathBuf::push` joins them.
pub open spec fn join_path(dir: Seq<char>, name: Seq<char>) -> Seq<char> {
    if dir.len() == 0 || dir.last() == '/' {
        dir + name
    } else {
        dir + seq!['/'] + name
    }
}

pub open spec fn commit_prefix() -> Seq<char> {
    "[loveletter] "@
}

/// Appends `name` to the directory `dir`.
fn join(dir: &String, name: &str) -> (r: String)
    ensures
        r@ == join_path(dir@, name@),
{
    let mut r = dir.clone();
    if dir.as_str().unicode_len() > 0 {
        let v = crate::text::chars_of(dir.as_str());
        if v[v.len() - 1] != '/' {
            push_char(&mut r, '/');
        }
    }
    append_str(&mut r, name);
    r
}

/// The static index of all documents.
pub const INDEX_DOCUMENT: &'static str = "\
===============
💌 Love Letters
===============

.. hint::
   Generated from :ghrepo:`SilverRainZ/loveletter`.

.. toctree::
   :glob:

   *
";

/// The archive: its configuration, by which it admits letters and places records and
/// documents.
pub struct Archive {
    pub cfg: ArchiveCfg,
}

impl Archive {
    pub fn new(cfg: ArchiveCfg) -> (r: Archive)
        ensures
            r.cfg == cfg,
    {
        Archive { cfg }
    }

    pub open spec fn senders(&self) -> Seq<MailAddress> {
        self.cfg.allowed_from_addrs.entries()
    }

    pub open spec fn recipients(&self) -> Seq<MailAddress> {
        self.cfg.allowed_to_addrs.entries()
    }

    /// Parses a subject like `[ACTION] YYYY/MM/DD: TITLE` into its date, title and action.
    pub fn parse_subject(subject: &str) -> (r: Result<
        (Date, Option<String>, Option<String>),
        LetterError,
    >)
        ensures
            match subject_parts(subject@) {
                Ok((d, t, a)) => r matches Ok((rd, rt, ra)) && rd == d && opt_view(rt) == t
                    && opt_view(ra) == a,
                Err(e) => r == Err::<(Date, Option<String>, Option<String>), LetterError>(e),
            },
    {
        parse_subject_text(subject)
    }

    /// Whether a sender writes as her (`true`) or as him (`false`), by the display name of
    /// the sender allow-list entry that matches the address.
    pub fn is_from_meimei_or_gege(&self, addr: &MailAddress) -> (r: Result<bool, LetterError>)
        ensures
            match first_match(self.senders(), addr.email@) {
                None => r == Err::<bool, LetterError>(LetterError::SenderNotAllowed(addr.text)),
                Some(i) => match role_of(self.senders()[i].display@) {
                    Some(m) => r == Ok::<bool, LetterError>(m),
                    None => r == Err::<bool, LetterError>(
                        LetterError::UnknownRole(self.senders()[i].display),
                    ),
                },
            },
    {
        match self.cfg.allowed_from_addrs.find(addr) {
            None => Err(LetterError::SenderNotAllowed(addr.text.clone())),
            Some(entry) => {
                if text_eq(entry.display.as_str(), MEIMEI) {
                    Ok(true)
                } else if text_eq(entry.display.as_str(), GEGE) {
                    Ok(false)
                } else {
                    Err(LetterError::UnknownRole(entry.display.clone()))
                }
            },
        }
    }

    /// Builds the record that a message asks for, once its sender and recipient are found in
    /// the allow-lists, its subject is read and the sender's role is known. Both timestamps
    /// are the message's.
    pub fn compose_letter(
        &self,
        from: &MailAddress,
        to: &MailAddress,
        subject: &str,
        content: String,
        sent_at: Option<i64>,
    ) -> (r: Result<(LoveLetter, Option<String>), LetterError>)
        ensures
            match first_match(self.senders(), from.email@) {
                None => r == Err::<(LoveLetter, Option<String>), LetterError>(
                    LetterError::SenderNotAllowed(from.text),
                ),
                Some(i) => match first_match(self.recipients(), to.email@) {
                    None => r == Err::<(LoveLetter, Option<String>), LetterError>(
                        LetterError::RecipientNotAllowed(to.text),
                    ),
                    Some(j) => match subject_parts(subject@) {
                        Err(e) => r == Err::<(LoveLetter, Option<String>), LetterError>(e),
                        Ok((d, t, a)) => match role_of(self.senders()[i].display@) {
                            None => r == Err::<(LoveLetter, Option<String>), LetterError>(
                                LetterError::UnknownRole(self.senders()[i].display),
                            ),
                            Some(m) => r matches Ok((l, ra)) && l.from == resolved(
                                self.senders()[i],
                                *from,
                            ) && l.to == resolved(self.recipients()[j], *to)
                                && l.from_meimei_if_true_and_gege_if_false == m && l.created_at
                                == sent_at && l.updated_at == sent_at && l.date == d && opt_view(
                                l.title,
                            ) == t && l.content == content && opt_view(ra) == a,
                        },
                    },
                },
            },
            // An address that no entry's identity matches is refused, whatever its display name.
            (forall|k: int|
                0 <= k < self.senders().len() ==> !same_identity(
                    #[trigger] self.senders()[k].email@,
                    from.email@,
                )) ==> r matches Err(LetterError::SenderNotAllowed(_)),
            (exists|k: int|
                0 <= k < self.senders().len() && same_identity(
                    #[trigger] self.senders()[k].email@,
                    from.email@,
                )) && (forall|k: int|
                0 <= k < self.recipients().len() ==> !same_identity(
                    #[trigger] self.recipients()[k].email@,
                    to.email@,
                )) ==> r matches Err(LetterError::RecipientNotAllowed(_)),
    {
        proof {
            lemma_first_match(self.senders(), from.email@);
            lemma_first_match(self.recipients(), to.email@);
        }
        let from_entry = match self.cfg.allowed_from_addrs.find(from) {
            Some(a) => a,
            None => {
                return Err(LetterError::SenderNotAllowed(from.text.clone()));
            },
        };
        let from_kept = if from.display.as_str().unicode_len() == 0 {
            from_entry.duplicate()
        } else {
            from.duplicate()
        };
        let to_entry = match self.cfg.allowed_to_addrs.find(to) {
            Some(a) => a,
            None => {
                return Err(LetterError::RecipientNotAllowed(to.text.clone()));
            },
        };
        let to_kept = if to.display.as_str().unicode_len() == 0 {
            to_entry.duplicate()
        } else {
            to.duplicate()
        };
        let (date, title, action) = match Archive::parse_subject(subject) {
            Ok(p) => p,
            Err(e) => {
                return Err(e);
            },
        };
        let meimei = match self.is_from_meimei_or_gege(from) {
            Ok(m) => m,
            Err(e) => {
                return Err(e);
            },
        };
        let letter = LoveLetter {
            from: from_kept,
            to: to_kept,
            from_meimei_if_true_and_gege_if_false: meimei,
            created_at: sent_at,
            updated_at: sent_at,
            date,
            title,
            content,
        };
        Ok((letter, action))
    }

    /// Decides whether a composed record is written, given the action asked for and the
    /// record stored under the same file name, if there is one. An edit, or a configured
    /// overwrite, keeps the stored record's creation time.
    pub fn settle_letter(
        &self,
        letter: LoveLetter,
        action: &Option<String>,
        existing: Option<&LoveLetter>,
    ) -> (r: Result<LoveLetter, LetterError>)
        ensures
            match settle_outcome(
                self.cfg.overwrite,
                letter,
                opt_view(*action),
                match existing {
                    Some(e) => Some(*e),
                    None => None,
                },
            ) {
                Settled::Write(w) => r == Ok::<LoveLetter, LetterError>(w),
                Settled::Conflict => r matches Err(LetterError::Conflict(p)) && p@
                    == letter.file_name(),
                Settled::UnknownAction => r matches Err(LetterError::UnknownAction(x))
                    && Some(x@) == opt_view(*action),
            },
    {
        match action {
            Some(a) => {
                proof {
                    reveal_strlit("edit");
                    assert("edit"@ =~= edit_action());
                }
                if !text_eq(a.as_str(), "edit") {
                    return Err(LetterError::UnknownAction(a.clone()));
                }
            },
            None => {
                if existing.is_some() && !self.cfg.overwrite {
                    return Err(LetterError::Conflict(letter.letter_filename()));
                }
            },
        }
        match existing {
            Some(e) => Ok(LoveLetter { created_at: e.created_at, ..letter }),
            None => Ok(letter),
        }
    }

    /// Where the record of a letter is stored.
    pub fn letter_path(&self, letter: &LoveLetter) -> (r: String)
        ensures
            r@ == join_path(self.cfg.letter_dir@, letter.file_name()),
    {
        let name = letter.letter_filename();
        join(&self.cfg.letter_dir, name.as_str())
    }

    /// Where the document of a year is written.
    pub fn rstdoc_year_path(&self, year: i32) -> (r: String)
        ensures
            r@ == join_path(self.cfg.rstdoc_dir@, rstdoc_name(year as int)),
    {
        let name = year_document_name(year);
        join(&self.cfg.rstdoc_dir, name.as_str())
    }

    /// Where the document of a letter's year is written.
    pub fn rstdoc_path(&self, letter: &LoveLetter) -> (r: String)
        ensures
            r@ == join_path(self.cfg.rstdoc_dir@, rstdoc_name(letter.date.year as int)),
    {
        self.rstdoc_year_path(letter.date.year)
    }

    /// Where the index of the documents is written.
    pub fn rstdoc_index_path(&self) -> (r: String)
        ensures
            r@ == join_path(self.cfg.rstdoc_dir@, "index.rst"@),
    {
        join(&self.cfg.rstdoc_dir, "index.rst")
    }

    /// The message of the commit that stores a letter.
    pub fn letter_commit_message(subject: &str) -> (r: String)
        ensures
            r@ == commit_prefix() + subject@,
    {
        let mut r = String::new();
        append_str(&mut r, "[loveletter] ");
        append_str(&mut r, subject);
        r
    }
}

/// A plain message for a file name that is taken is refused: after two plain upserts of
/// letters with one file name, the record is the one the first wrote.
pub proof fn law_second_plain_upsert_conflicts(
    overwrite: bool,
    first: LoveLetter,
    second: LoveLetter,
)
    requires
        !overwrite,
        first.file_name() == second.file_name(),
    ensures
        settle_outcome(overwrite, first, None, None) == Settled::Write(first),
        settle_outcome(overwrite, second, None, Some(first)) == Settled::Conflict,
{
}

/// An edit of a stored record keeps its creation time and takes the new content and update
/// time.
pub proof fn law_edit_keeps_creation(overwrite: bool, existing: LoveLetter, letter: LoveLetter)
    ensures
        settle_outcome(overwrite, letter, Some(edit_action()), Some(existing)) matches Settled::Write(
            w,
        ) && w.created_at == existing.created_at && w.content == letter.content && w.updated_at
            == letter.updated_at && w.file_name() == letter.file_name(),
{
}

} // verus!
