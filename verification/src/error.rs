use vstd::prelude::*;

verus! {

/// Why a tail read could not be planned, applied or completed.
#[derive(Clone, Copy, Debug, PartialEq, Eq, Structural)]
pub enum TailError {
    /// The topic has no partitions, or its watermark snapshot is not usable.
    Metadata,
    /// The computed start offsets could not be turned into an assignment.
    Assignment,
    /// A poll failed, or returned a message that could not be decoded.
    Read,
    /// Mutually exclusive read modes were requested together.
    Config,
}

impl TailError {
    /// What to tell the user.
    pub open spec fn text(self) -> Seq<char> {
        match self {
            TailError::Metadata => "the topic has no partitions, or its watermarks are not usable"@,
            TailError::Assignment => "the start offsets could not be assigned"@,
            TailError::Read => "a poll failed; the read was aborted"@,
            TailError::Config => "a limit and an instant cannot be combined"@,
        }
    }

    /// The message that goes with the error.
    pub fn message(&self) -> (message: &'static str)
        ensures
            message@ == self.text(),
    {
        match self {
            TailError::Metadata => "the topic has no partitions, or its watermarks are not usable",
            TailError::Assignment => "the start offsets could not be assigned",
            TailError::Read => "a poll failed; the read was aborted",
            TailError::Config => "a limit and an instant cannot be combined",
        }
    }
}

} // verus!
