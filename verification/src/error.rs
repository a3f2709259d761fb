use vstd::prelude::*;

verus! {

/// What can go wrong while the hub serves a request or a listener.
#[derive(Clone, Copy, Debug, PartialEq, Eq, Structural)]
pub enum Error {
    /// An asset id in a request did not have exactly 16 bytes.
    InvalidIdLength,
    /// A path in a request was not valid UTF-8.
    InvalidPathEncoding,
    /// The store could not open or walk a read transaction, or could not
    /// take another batch.
    StoreError,
    /// A wire message held a value the schema does not define.
    SchemaError,
    /// The file source could not produce an artifact.
    ArtifactRegenerationError,
    /// The connection dropped or a send failed.
    TransportError,
}

/// How an error reaches the client.
#[derive(Clone, Copy, Debug, PartialEq, Eq, Structural)]
pub enum Propagation {
    /// The whole call fails and carries no partial result.
    FailsCall,
    /// Nothing is reported: the affected connection or listener is torn down.
    Silent,
}

impl Error {
    /// The propagation of each kind of error: a transport error is silent,
    /// every other kind fails the call it arose in.
    pub open spec fn spec_propagation(self) -> Propagation {
        match self {
            Error::TransportError => Propagation::Silent,
            _ => Propagation::FailsCall,
        }
    }

    /// How this error is propagated.
    pub fn propagation(&self) -> (p: Propagation)
        ensures
            p == self.spec_propagation(),
    {
        match self {
            Error::TransportError => Propagation::Silent,
            Error::InvalidIdLength => Propagation::FailsCall,
            Error::InvalidPathEncoding => Propagation::FailsCall,
            Error::StoreError => Propagation::FailsCall,
            Error::SchemaError => Propagation::FailsCall,
            Error::ArtifactRegenerationError => Propagation::FailsCall,
        }
    }
}

} // verus!
