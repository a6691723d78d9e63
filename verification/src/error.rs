//! The error that the whole engine shares.
use vstd::prelude::*;

verus! {

/// What went wrong.
#[derive(Debug)]
pub enum Error {
    Backend(String),
    Loader(String),
    Model(String),
    Unsupported(String),
    /// A shutdown was requested: no new device work is issued, and what was submitted has been
    /// drained.
    Aborted,
    Io(String),
    Other(String),
}

/// What a user reads of an error: its kind and its own text, or the text alone where it is of no kind.
pub proof fn law_messages(e: Error)
    ensures
        e matches Error::Backend(m) ==> e.prefix() + e.detail() == "backend: "@ + m@,
        e matches Error::Loader(m) ==> e.prefix() + e.detail() == "loader: "@ + m@,
        e matches Error::Model(m) ==> e.prefix() + e.detail() == "model: "@ + m@,
        e matches Error::Unsupported(m) ==> e.prefix() + e.detail() == "unsupported: "@ + m@,
        e is Aborted ==> e.prefix() + e.detail() == "aborted: shutdown requested"@,
        e matches Error::Io(m) ==> e.prefix() + e.detail() == "io: "@ + m@,
        e matches Error::Other(m) ==> e.prefix() + e.detail() == m@,
{
    reveal_strlit("");
    reveal_strlit("aborted: ");
    reveal_strlit("shutdown requested");
    reveal_strlit("aborted: shutdown requested");
    if let Error::Other(m) = e {
        assert(""@ + m@ =~= m@);
    }
    if e is Aborted {
        assert("aborted: "@ + "shutdown requested"@ =~= "aborted: shutdown requested"@);
    }
}

impl Error {
    /// What comes before an error's own text.
    pub open spec fn prefix(&self) -> Seq<char> {
        match self {
            Error::Backend(_) => "backend: "@,
            Error::Loader(_) => "loader: "@,
            Error::Model(_) => "model: "@,
            Error::Unsupported(_) => "unsupported: "@,
            Error::Aborted => "aborted: "@,
            Error::Io(_) => "io: "@,
            Error::Other(_) => ""@,
        }
    }

    /// An error's own text.
    pub open spec fn detail(&self) -> Seq<char> {
        match self {
            Error::Backend(m) => m@,
            Error::Loader(m) => m@,
            Error::Model(m) => m@,
            Error::Unsupported(m) => m@,
            Error::Aborted => "shutdown requested"@,
            Error::Io(m) => m@,
            Error::Other(m) => m@,
        }
    }

    /// A backend error with the text `msg`.
    pub fn backend(msg: &str) -> (r: Error)
        ensures
            r matches Error::Backend(m) && m@ == msg@,
    {
        Error::Backend(msg.to_owned())
    }

    /// The error as a user reads it.
    pub fn message(&self) -> (r: String)
        ensures
            r@ == self.prefix() + self.detail(),
    {
        let (prefix, detail): (&str, &str) = match self {
            Error::Backend(m) => ("backend: ", m.as_str()),
            Error::Loader(m) => ("loader: ", m.as_str()),
            Error::Model(m) => ("model: ", m.as_str()),
            Error::Unsupported(m) => ("unsupported: ", m.as_str()),
            Error::Aborted => ("aborted: ", "shutdown requested"),
            Error::Io(m) => ("io: ", m.as_str()),
            Error::Other(m) => ("", m.as_str()),
        };
        let mut s = prefix.to_owned();
        s.append(detail);
        s
    }
}

} // verus!
