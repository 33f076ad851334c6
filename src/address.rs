use vstd::prelude::*;

use crate::text::chars_of;

verus! {

/// A mail address as the archive reads it: the whole text it was written as, the address
/// proper, and the display name before it (empty where there is none).
#[derive(Debug, Clone, PartialEq, Eq)]
pub struct MailAddress {
    pub text: String,
    pub email: String,
    pub display: String,
}

impl MailAddress {
    /// A copy with the same three texts.
    pub fn duplicate(&self) -> (r: MailAddress)
        ensures
            r == *self,
    {
        MailAddress {
            text: self.text.clone(),
            email: self.email.clone(),
            display: self.display.clone(),
        }
    }
}

/// `c` with ASCII upper case taken to lower case.
pub open spec fn folded(c: char) -> u32 {
    let u = c as u32;
    if 65 <= u && u <= 90 {
        (u + 32) as u32
    } else {
        u
    }
}

/// Whether two addresses name the same mailbox, ASCII case aside.
pub open spec fn same_identity(a: Seq<char>, b: Seq<char>) -> bool {
    a.len() == b.len() && forall|i: int| 0 <= i < a.len() ==> folded(#[trigger] a[i]) == folded(b[i])
}

/// The index of the first entry of `s` with the identity `email`.
pub open spec fn first_match(s: Seq<MailAddress>, email: Seq<char>) -> Option<int>
    decreases s.len(),
{
    if s.len() == 0 {
        None
    } else if same_identity(s[0].email@, email) {
        Some(0)
    } else {
        match first_match(s.drop_first(), email) {
            Some(i) => Some(i + 1),
            None => None,
        }
    }
}

pub proof fn lemma_first_match(s: Seq<MailAddress>, email: Seq<char>)
    ensures
        match first_match(s, email) {
            Some(i) => 0 <= i < s.len() && same_identity(s[i].email@, email),
            None => forall|i: int| 0 <= i < s.len() ==> !same_identity(#[trigger] s[i].email@, email),
        },
    decreases s.len(),
{
    if s.len() > 0 {
        lemma_first_match(s.drop_first(), email);
        if !same_identity(s[0].email@, email) && first_match(s, email) is None {
            assert forall|i: int| 0 <= i < s.len() implies !same_identity(
                #[trigger] s[i].email@,
                email,
            ) by {
                if i > 0 {
                    assert(s[i] == s.drop_first()[i - 1]);
                }
            }
        }
    }
}

pub fn fold_char(c: char) -> (r: u32)
    ensures
        r == folded(c),
{
    let u = c as u32;
    if 65 <= u && u <= 90 {
        u + 32
    } else {
        u
    }
}

/// Whether `a` and `b` name the same mailbox, ASCII case aside.
pub fn identity_matches(a: &str, b: &str) -> (r: bool)
    ensures
        r == same_identity(a@, b@),
{
    let x = chars_of(a);
    let y = chars_of(b);
    if x.len() != y.len() {
        return false;
    }
    let mut i: usize = 0;
    while i < x.len()
        invariant
            x@ == a@,
            y@ == b@,
            x.len() == y.len(),
            i <= x.len(),
            forall|k: int| 0 <= k < i ==> folded(#[trigger] x@[k]) == folded(y@[k]),
        decreases x.len() - i,
    {
        if fold_char(x[i]) != fold_char(y[i]) {
            return false;
        }
        i = i + 1;
    }
    true
}

/// The addresses that one side of a correspondence may use.
#[derive(Debug, Clone)]
pub struct EmailAddressList(pub Vec<MailAddress>);

impl EmailAddressList {
    pub open spec fn entries(&self) -> Seq<MailAddress> {
        self.0@
    }

    /// An empty list.
    pub fn new() -> (r: EmailAddressList)
        ensures
            r.entries().len() == 0,
    {
        EmailAddressList(Vec::new())
    }

    /// The first entry whose address is that of `elem`; the display names play no part.
    pub fn find(&self, elem: &MailAddress) -> (r: Option<&MailAddress>)
        ensures
            match first_match(self.entries(), elem.email@) {
                Some(i) => r matches Some(a) && *a == self.entries()[i],
                None => r is None,
            },
    {
        let mut i: usize = 0;
        assert(self.entries().subrange(0, self.entries().len() as int) =~= self.entries());
        while i < self.0.len()
            invariant
                i <= self.0.len(),
                first_match(self.entries(), elem.email@) == match first_match(
                    self.entries().subrange(i as int, self.entries().len() as int),
                    elem.email@,
                ) {
                    Some(k) => Some(k + i),
                    None => None,
                },
            decreases self.0.len() - i,
        {
            let ghost rest = self.entries().subrange(i as int, self.entries().len() as int);
            if identity_matches(self.0[i].email.as_str(), elem.email.as_str()) {
                return Some(&self.0[i]);
            }
            assert(rest.drop_first() =~= self.entries().subrange(
                i + 1,
                self.entries().len() as int,
            ));
            i = i + 1;
        }
        None
    }
}

} // verus!
