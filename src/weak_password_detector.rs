use vstd::prelude::*;
use crate::filter::BloomFilter;
use crate::hashing::Hashing;
use crate::storage_service::{StorageService, StorageServiceError};

verus! {

/// The outcome of checking a password, or why it could not be checked.
#[derive(Debug)]
pub enum DetectError {
    Initialize(String),
    Storage(StorageServiceError),
    /// The password is a common one.
    Dismiss,
    /// The password is not a common one.
    Approve,
}

/// The verdict on a password that the filter admitted, from the store's answer:
/// found means common, not found means approved.
pub fn verdict_of(answer: Result<bool, StorageServiceError>) -> (r: DetectError)
    ensures
        answer matches Ok(true) ==> r is Dismiss,
        answer matches Ok(false) ==> r is Approve,
        answer is Err ==> r == DetectError::Storage(answer->Err_0),
{
    match answer {
        Ok(found) => {
            if found {
                DetectError::Dismiss
            } else {
                DetectError::Approve
            }
        },
        Err(err) => DetectError::Storage(err),
    }
}

/// Flags passwords that appear in a list of common ones.
pub struct PasswordDetector<H, D> {
    buffer: BloomFilter<H>,
    database: D,
}

/// Collects the filter and the store of a detector.
pub struct Builder<H, D> {
    buffer: Option<BloomFilter<H>>,
    database: Option<D>,
}

impl<H: Hashing, D: StorageService> Default for Builder<H, D> {
    fn default() -> (r: Builder<H, D>)
        ensures
            r.buffer() is None,
            r.database() is None,
    {
        Builder { buffer: None, database: None }
    }
}

impl<H: Hashing, D: StorageService> Builder<H, D> {
    pub closed spec fn buffer(&self) -> Option<BloomFilter<H>> {
        self.buffer
    }

    pub closed spec fn database(&self) -> Option<D> {
        self.database
    }

    /// Fails when the store or the filter is missing, the store checked first.
    pub fn build(self) -> (r: Result<PasswordDetector<H, D>, DetectError>)
        ensures
            self.database() is None ==> r matches Err(DetectError::Initialize(_)),
            self.database() is Some && self.buffer() is None ==> r matches Err(
                DetectError::Initialize(_),
            ),
            self.database() is Some && self.buffer() is Some ==> (r matches Ok(d) && d.buffer()
                == self.buffer()->Some_0 && d.database() == self.database()->Some_0),
    {
        let database = match self.database {
            Some(d) => d,
            None => return Err(DetectError::Initialize("Storage has not been initialized".to_owned())),
        };
        let buffer = match self.buffer {
            Some(b) => b,
            None => return Err(DetectError::Initialize("Buffer has not been initialized".to_owned())),
        };
        Ok(PasswordDetector { buffer, database })
    }

    pub fn with_buffer(self, buffer: BloomFilter<H>) -> (r: Builder<H, D>)
        ensures
            r.buffer() == Some(buffer),
            r.database() == self.database(),
    {
        Builder { buffer: Some(buffer), database: self.database }
    }

    pub fn with_database(self, database: D) -> (r: Builder<H, D>)
        ensures
            r.buffer() == self.buffer(),
            r.database() == Some(database),
    {
        Builder { buffer: self.buffer, database: Some(database) }
    }
}

impl<H: Hashing, D: StorageService> PasswordDetector<H, D> {
    pub closed spec fn buffer(&self) -> BloomFilter<H> {
        self.buffer
    }

    pub closed spec fn database(&self) -> D {
        self.database
    }

    pub fn builder() -> (r: Builder<H, D>)
        ensures
            r.buffer() is None,
            r.database() is None,
    {
        Builder::default()
    }

    /// Approves a password the filter rules out; otherwise the store decides
    /// (see `verdict_of`).
    pub fn verify(&self, password: &str) -> (r: DetectError)
        requires
            self.buffer().wf(),
        ensures
            !self.buffer().holds(self.buffer().bits(), password@) ==> r is Approve,
            r is Dismiss ==> self.buffer().holds(self.buffer().bits(), password@),
            !(r is Initialize),
    {
        if self.buffer.contains(password) {
            verdict_of(self.database.contains(password))
        } else {
            DetectError::Approve
        }
    }
}

} // verus!
