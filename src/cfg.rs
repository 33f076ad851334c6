use vstd::prelude::*;

use crate::address::EmailAddressList;

verus! {

/// Where the archive keeps its records and documents, and what it lets in.
#[derive(Debug, Clone)]
pub struct ArchiveCfg {
    /// The directory of the records, one file per letter.
    pub letter_dir: String,
    /// The directory of the documents, one file per year.
    pub rstdoc_dir: String,
    /// Whether missing directories are created.
    pub create_dirs: bool,
    /// Whether commits stay local.
    pub git_no_push: bool,
    /// Whether a repository is cleaned before it is changed.
    pub git_pre_cleanup: bool,
    /// How many times a pull or a push is tried.
    pub git_retry: i32,
    /// Whether a plain message may replace an existing record.
    pub overwrite: bool,
    pub allowed_from_addrs: EmailAddressList,
    pub allowed_to_addrs: EmailAddressList,
}

/// How the mailbox is polled.
#[derive(Debug, Clone, Copy, PartialEq, Eq)]
pub struct RuntimeCfg {
    /// Seconds between two polls.
    pub interval: u64,
}

/// The default of the flags that are on unless said otherwise.
pub fn yes() -> (r: bool)
    ensures
        r,
{
    true
}

/// The default of the flags that are off unless said otherwise.
pub fn no() -> (r: bool)
    ensures
        !r,
{
    false
}

/// The default number of tries of a pull or a push.
pub fn i32_3() -> (r: i32)
    ensures
        r == 3,
{
    3
}

/// The default number of seconds between two polls.
pub fn u64_60() -> (r: u64)
    ensures
        r == 60,
{
    60
}

} // verus!
