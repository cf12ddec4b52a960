//! The encoder's error taxonomy.

use vstd::prelude::*;

verus! {

/// The three classes of failure an encode call distinguishes.
#[derive(Debug)]
pub enum InnerError {
    /// A write into the output sink failed.  An in-memory buffer cannot
    /// fail this way; the class exists for sinks that can.
    Io(String),
    /// A value had no canonical text form where one was required.
    Fmt,
    /// The driving side reported a structural problem, with a message.
    Custom(String),
}

/// The single error type every encode failure is surfaced as.
#[derive(Debug)]
pub struct Error {
    pub inner: InnerError,
}

/// The text `message` renders an [`InnerError`] as.
pub open spec fn message_view(inner: InnerError) -> Seq<char> {
    match inner {
        InnerError::Io(m) => "i/o error: "@ + m@,
        InnerError::Fmt => "canonical text conversion failed"@,
        InnerError::Custom(m) => "custom error: "@ + m@,
    }
}

impl Error {
    /// Wraps a structural problem reported by the driving side.
    pub fn custom(msg: &str) -> (e: Error)
        ensures
            e.inner matches InnerError::Custom(m) && m@ == msg@,
    {
        Error { inner: InnerError::Custom(msg.to_owned()) }
    }

    /// Wraps a failed write into a fallible output sink.
    pub fn io_error(msg: &str) -> (e: Error)
        ensures
            e.inner matches InnerError::Io(m) && m@ == msg@,
    {
        Error { inner: InnerError::Io(msg.to_owned()) }
    }

    /// Reports a failed canonical-text conversion.
    pub fn formatting() -> (e: Error)
        ensures
            e.inner is Fmt,
    {
        Error { inner: InnerError::Fmt }
    }

    /// A human-readable description of the failure.
    pub fn message(&self) -> (r: String)
        ensures
            r@ == message_view(self.inner),
    {
        match &self.inner {
            InnerError::Io(m) => {
                let mut s = "i/o error: ".to_owned();
                s.append(m.as_str());
                s
            },
            InnerError::Fmt => "canonical text conversion failed".to_owned(),
            InnerError::Custom(m) => {
                let mut s = "custom error: ".to_owned();
                s.append(m.as_str());
                s
            },
        }
    }
}

} // verus!
