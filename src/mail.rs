use vstd::prelude::*;

verus! {

/// A message as fetched from the mailbox, not yet decoded.
pub struct RawMail {
    data: String,
}

impl RawMail {
    pub closed spec fn view(&self) -> Seq<char> {
        self.data@
    }

    pub fn new(data: &str) -> (r: RawMail)
        ensures
            r.view() == data@,
    {
        RawMail { data: data.to_owned() }
    }

    /// The text of the message.
    pub fn data(&self) -> (r: &str)
        ensures
            r@ == self.view(),
    {
        self.data.as_str()
    }
}

} // verus!
