use vstd::prelude::*;

verus! {

/// `std::io::Error`, carried through the library unread.
#[verifier::external_type_specification]
#[verifier::external_body]
pub struct ExIoError(std::io::Error);

/// `object::read::Error`, the executable parser's error, carried through unread.
#[verifier::external_type_specification]
#[verifier::external_body]
pub struct ExObjectError(object::read::Error);

/// A source tree could not be cloned; holds the tree's name.
pub struct GitCloneError(pub String);

/// Why an executable could not be flattened into a memory image.
pub enum ElfError {
    /// The file could not be read.
    Read(std::io::Error),
    /// The bytes are not an executable of a known format.
    ElfParse(object::read::Error),
    /// A segment's destination range lies beyond the destination buffer.
    ElfSegment,
    /// A payload is larger than the region reserved for it.
    ElfOutputTooSmall,
}

impl ElfError {
    pub open spec fn is_segment(&self) -> bool {
        self is ElfSegment
    }

    pub open spec fn is_too_small(&self) -> bool {
        self is ElfOutputTooSmall
    }

    pub open spec fn is_parse(&self) -> bool {
        self is ElfParse
    }
}

/// An `ElfError` together with the path of the artifact it concerns.
pub struct ComposeError {
    pub file: String,
    pub err: ElfError,
}

impl ComposeError {
    pub fn io(path: &str, err: std::io::Error) -> (r: Self)
        ensures
            r.file@ == path@,
            r.err == ElfError::Read(err),
    {
        Self::err(path, ElfError::Read(err))
    }

    pub fn err(path: &str, err: ElfError) -> (r: Self)
        ensures
            r.file@ == path@,
            r.err == err,
    {
        ComposeError { file: path.to_string(), err }
    }
}

/// A delegated build step failed.
pub enum BuildError {
    /// The build tool could not be started.
    Invocation(std::io::Error),
    /// The build tool ran and reported failure.
    Cargo,
}

/// Turns the exit status of a delegated step into a result: `Ok` when it
/// succeeded, else the given error.
pub fn bail<E>(success: bool, err: E) -> (r: Result<(), E>)
    ensures
        success ==> r is Ok,
        !success ==> r == Err::<(), E>(err),
{
    if !success {
        Err(err)
    } else {
        Ok(())
    }
}

} // verus!
