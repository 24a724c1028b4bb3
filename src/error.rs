use vstd::prelude::*;

verus! {

/// The kinds of failure that an ingestion run or a query can end in.
#[derive(Clone, Copy, Debug, PartialEq, Eq, Structural)]
pub enum ErrorKind {
    /// The input is not a readable archive, or one of its members cannot be read.
    Archive,
    /// A record line is malformed (bad codepoint, too few fields).
    Parse,
    /// The store refused a statement (syntax, missing table, uniqueness, ...).
    Store,
    /// Bytes that should be text are not valid UTF-8.
    Encoding,
    /// A query produced more rows than the result cap allows.
    Capacity,
}

/// A failed operation: what kind of failure it was, and a message for the user.
#[derive(Clone, Debug)]
pub struct InternalError {
    pub kind: ErrorKind,
    pub message: String,
}

impl InternalError {
    pub fn new(kind: ErrorKind, message: String) -> (r: InternalError)
        ensures
            r.kind == kind,
            r.message@ == message@,
    {
        InternalError { kind, message }
    }

    /// A failure reported by the store, carrying the store's own message.
    pub fn store(message: String) -> (r: InternalError)
        ensures
            r.kind == ErrorKind::Store,
            r.message@ == message@,
    {
        InternalError { kind: ErrorKind::Store, message }
    }

    /// The text shown to the user: the kind of failure, then its message.
    pub fn to_message(&self) -> (r: String)
        ensures
            r@ == kind_label(self.kind) + self.message@,
    {
        let label = match self.kind {
            ErrorKind::Archive => "(archive) ",
            ErrorKind::Parse => "(parse) ",
            ErrorKind::Store => "(store) ",
            ErrorKind::Encoding => "(encoding) ",
            ErrorKind::Capacity => "(capacity) ",
        };
        let r = String::from_str(label).concat(self.message.as_str());
        proof {
            reveal_strlit("(archive) ");
            reveal_strlit("(parse) ");
            reveal_strlit("(store) ");
            reveal_strlit("(encoding) ");
            reveal_strlit("(capacity) ");
        }
        r
    }
}

/// The prefix that names a kind of failure in a user-facing message.
pub open spec fn kind_label(k: ErrorKind) -> Seq<char> {
    match k {
        ErrorKind::Archive => "(archive) "@,
        ErrorKind::Parse => "(parse) "@,
        ErrorKind::Store => "(store) "@,
        ErrorKind::Encoding => "(encoding) "@,
        ErrorKind::Capacity => "(capacity) "@,
    }
}

} // verus!
