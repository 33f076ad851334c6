use vstd::prelude::*;

use crate::error::LetterError;
use crate::text::{chars_of, string_of};

verus! {

/// The root with exactly one `/` at its end.
pub open spec fn root_dir(root: Seq<char>) -> Seq<char> {
    if root.len() > 0 && root.last() == '/' {
        root
    } else {
        root.push('/')
    }
}

/// The part of `path` below the directory `root`, if it lies below it.
pub open spec fn below(root: Seq<char>, path: Seq<char>) -> Option<Seq<char>> {
    let base = root_dir(root);
    if path.len() > base.len() && path.subrange(0, base.len() as int) == base {
        Some(path.subrange(base.len() as int, path.len() as int))
    } else {
        None
    }
}

/// The path to hand to `git add`, relative to the repository's root. Both paths are taken
/// after symbolic links and `..` have been resolved; a path that does not lie below the root
/// is refused.
pub fn repo_relative(root: &str, path: &str) -> (r: Result<String, LetterError>)
    ensures
        match below(root@, path@) {
            Some(rel) => r matches Ok(s) && s@ == rel,
            None => r matches Err(LetterError::PathEscapesRepository(p)) && p@ == path@,
        },
{
    let mut base = chars_of(root);
    if base.len() == 0 || base[base.len() - 1] != '/' {
        base.push('/');
    }
    assert(base@ == root_dir(root@));
    let v = chars_of(path);
    if v.len() <= base.len() {
        return Err(LetterError::PathEscapesRepository(string_of(&v, 0, v.len())));
    }
    let mut i: usize = 0;
    while i < base.len()
        invariant
            base@ == root_dir(root@),
            v@ == path@,
            base.len() < v.len(),
            i <= base.len(),
            forall|k: int| 0 <= k < i ==> v@[k] == base@[k],
        decreases base.len() - i,
    {
        if v[i] != base[i] {
            assert(path@.subrange(0, base.len() as int)[i as int] != base@[i as int]);
            proof {
                assert(v@.subrange(0, v.len() as int) =~= v@);
            }
            return Err(LetterError::PathEscapesRepository(string_of(&v, 0, v.len())));
        }
        i = i + 1;
    }
    assert(path@.subrange(0, base.len() as int) =~= base@);
    Ok(string_of(&v, base.len(), v.len()))
}

/// Where a push with retries stands.
#[derive(Debug, Clone, Copy, PartialEq, Eq)]
pub enum PushPhase {
    /// Integrating the remote's changes.
    Pulling,
    /// Sending the local commits.
    Pushing,
    /// The commits reached the remote.
    Done,
    /// Every pull failed; the commits stay local.
    PullFailed,
    /// Every push failed; the commits stay local.
    PushFailed,
}

/// A push in progress: its phase and the failed attempts of that phase so far.
#[derive(Debug, Clone, Copy, PartialEq, Eq)]
pub struct PushRun {
    pub phase: PushPhase,
    pub failures: i32,
}

impl PushRun {
    /// Whether the run is within its bounds: an open phase has had fewer failures than tries.
    pub open spec fn inv(self, retry: i32) -> bool {
        match self.phase {
            PushPhase::Pulling | PushPhase::Pushing => 0 <= self.failures < retry,
            _ => true,
        }
    }

    /// The first step of a push tried `retry` times: with no tries there is nothing to do.
    pub fn start(retry: i32) -> (r: PushRun)
        ensures
            retry <= 0 ==> r.phase == PushPhase::Done,
            retry > 0 ==> r.phase == PushPhase::Pulling && r.failures == 0,
            r.inv(retry),
    {
        if retry <= 0 {
            PushRun { phase: PushPhase::Done, failures: 0 }
        } else {
            PushRun { phase: PushPhase::Pulling, failures: 0 }
        }
    }

    /// Whether a pull or a push is to be run next.
    pub fn is_running(&self) -> (r: bool)
        ensures
            r == (self.phase == PushPhase::Pulling || self.phase == PushPhase::Pushing),
    {
        match self.phase {
            PushPhase::Pulling | PushPhase::Pushing => true,
            _ => false,
        }
    }

    /// The run after its current attempt succeeded (`ok`) or failed. A success of the pull
    /// starts the push; a failure is retried until `retry` attempts have failed.
    pub fn step(self, retry: i32, ok: bool) -> (r: PushRun)
        requires
            self.inv(retry),
            self.phase == PushPhase::Pulling || self.phase == PushPhase::Pushing,
        ensures
            r.inv(retry),
            ok && self.phase == PushPhase::Pulling ==> (r.phase == PushPhase::Pushing
                && r.failures == 0),
            ok && self.phase == PushPhase::Pushing ==> (r.phase == PushPhase::Done && r.failures
                == 0),
            !ok && self.failures + 1 < retry ==> (r.phase == self.phase && r.failures
                == self.failures + 1),
            !ok && self.failures + 1 == retry && self.phase == PushPhase::Pulling ==> (r.phase
                == PushPhase::PullFailed && r.failures == retry),
            !ok && self.failures + 1 == retry && self.phase == PushPhase::Pushing ==> (r.phase
                == PushPhase::PushFailed && r.failures == retry),
    {
        if ok {
            match self.phase {
                PushPhase::Pulling => PushRun { phase: PushPhase::Pushing, failures: 0 },
                _ => PushRun { phase: PushPhase::Done, failures: 0 },
            }
        } else if self.failures + 1 < retry {
            PushRun { phase: self.phase, failures: self.failures + 1 }
        } else {
            match self.phase {
                PushPhase::Pulling => PushRun { phase: PushPhase::PullFailed, failures: retry },
                _ => PushRun { phase: PushPhase::PushFailed, failures: retry },
            }
        }
    }

    /// What the finished run reports: nothing when the commits reached the remote, else that
    /// the push failed, whether the pulls or the pushes gave out.
    pub fn outcome(&self) -> (r: Result<(), LetterError>)
        ensures
            self.phase == PushPhase::PullFailed || self.phase == PushPhase::PushFailed ==> r
                == Err::<(), LetterError>(LetterError::PushFailed),
            self.phase != PushPhase::PullFailed && self.phase != PushPhase::PushFailed ==> r
                == Ok::<(), LetterError>(()),
    {
        match self.phase {
            PushPhase::PullFailed | PushPhase::PushFailed => Err(LetterError::PushFailed),
            _ => Ok(()),
        }
    }
}

} // verus!
