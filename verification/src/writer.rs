//! Writing a file so that nobody ever sees half of it.

use vstd::prelude::*;
use vstd::string::*;
use crate::host::Next;
use crate::paths::{bytes_of, cannot, cannot_text, lossy_text, suffixed, FilePath};
use crate::text::{decimal, show_u64};

verus! {

/// What writing a file asks of its host.
#[derive(Clone, Copy, Debug, PartialEq, Eq, Structural)]
pub enum WriteRequest {
    /// Make the directory that the file is to be in.
    EnsureParent,
    /// Create the temporary file, or empty it.
    CreateTemporary,
    /// Write all of the contents to the temporary file and bring them to the disk.
    WriteTemporary,
    /// Put the temporary file in the place of the file.
    RenameTemporary,
}

/// What went wrong.
#[derive(Debug, PartialEq, Eq)]
pub enum WriteFailure {
    /// The directory could not be made; the message says which.
    Parent(String),
    Create(String),
    Write(String),
    Rename(String),
}

/// Where the contents are written first: beside the file, under a name that other
/// processes do not use.
pub open spec fn temporary_name(path: Seq<u8>, process: u32) -> Seq<u8> {
    path + bytes_of(".tmp."@ + decimal(process as nat))
}

/// Where the contents are written first.
pub fn temporary_path(path: &FilePath, process: u32) -> (r: FilePath)
    ensures
        r@ == temporary_name(path@, process),
{
    suffixed(path, ".tmp.".to_owned().concat(show_u64(process as u64).as_str()).as_str())
}

pub open spec fn write_failure_text(path: Seq<u8>, process: u32, failure: WriteFailure) -> Seq<
    char,
> {
    let temporary = temporary_name(path, process);
    match failure {
        WriteFailure::Parent(message) => message@,
        WriteFailure::Create(error) => cannot_text("create"@, temporary, error@),
        WriteFailure::Write(error) => cannot_text("write"@, temporary, error@),
        WriteFailure::Rename(error) => "cannot rename "@ + lossy_text(temporary) + " to "@
            + lossy_text(path) + ": "@ + error@,
    }
}

impl WriteFailure {
    /// The message for the failure.
    pub fn text(&self, path: &FilePath, process: u32) -> (r: String)
        ensures
            r@ == write_failure_text(path@, process, *self),
    {
        let temporary = temporary_path(path, process);
        match self {
            WriteFailure::Parent(message) => message.clone(),
            WriteFailure::Create(error) => cannot("create", &temporary, error.as_str()),
            WriteFailure::Write(error) => cannot("write", &temporary, error.as_str()),
            WriteFailure::Rename(error) => "cannot rename ".to_owned().concat(
                temporary.display().as_str(),
            ).concat(" to ").concat(path.display().as_str()).concat(": ").concat(error.as_str()),
        }
    }
}

/// The write of a whole file: a temporary file is written and then takes the
/// file's place.
#[derive(Debug)]
pub enum AtomicWrite {
    Preparing,
    Creating,
    Writing,
    Renaming,
}

/// Begins the write of a file.
pub fn atomic_write() -> (r: AtomicWrite)
    ensures
        r == AtomicWrite::Preparing,
{
    AtomicWrite::Preparing
}

impl AtomicWrite {
    pub open spec fn asks(self) -> WriteRequest {
        match self {
            AtomicWrite::Preparing => WriteRequest::EnsureParent,
            AtomicWrite::Creating => WriteRequest::CreateTemporary,
            AtomicWrite::Writing => WriteRequest::WriteTemporary,
            AtomicWrite::Renaming => WriteRequest::RenameTemporary,
        }
    }

    /// The request that the write stands at.
    pub fn request(&self) -> (r: WriteRequest)
        ensures
            r == self.asks(),
    {
        match self {
            AtomicWrite::Preparing => WriteRequest::EnsureParent,
            AtomicWrite::Creating => WriteRequest::CreateTemporary,
            AtomicWrite::Writing => WriteRequest::WriteTemporary,
            AtomicWrite::Renaming => WriteRequest::RenameTemporary,
        }
    }

    pub open spec fn after(self, done: Result<(), String>) -> Next<
        AtomicWrite,
        Result<(), WriteFailure>,
    > {
        match (self, done) {
            (AtomicWrite::Preparing, Ok(())) => Next::Ask(AtomicWrite::Creating),
            (AtomicWrite::Preparing, Err(message)) => Next::Done(
                Err(WriteFailure::Parent(message)),
            ),
            (AtomicWrite::Creating, Ok(())) => Next::Ask(AtomicWrite::Writing),
            (AtomicWrite::Creating, Err(error)) => Next::Done(Err(WriteFailure::Create(error))),
            (AtomicWrite::Writing, Ok(())) => Next::Ask(AtomicWrite::Renaming),
            (AtomicWrite::Writing, Err(error)) => Next::Done(Err(WriteFailure::Write(error))),
            (AtomicWrite::Renaming, Ok(())) => Next::Done(Ok(())),
            (AtomicWrite::Renaming, Err(error)) => Next::Done(Err(WriteFailure::Rename(error))),
        }
    }

    /// Goes on with the host's answer.
    pub fn step(self, done: Result<(), String>) -> (r: Next<AtomicWrite, Result<(), WriteFailure>>)
        ensures
            r == self.after(done),
    {
        match (self, done) {
            (AtomicWrite::Preparing, Ok(())) => Next::Ask(AtomicWrite::Creating),
            (AtomicWrite::Preparing, Err(message)) => Next::Done(
                Err(WriteFailure::Parent(message)),
            ),
            (AtomicWrite::Creating, Ok(())) => Next::Ask(AtomicWrite::Writing),
            (AtomicWrite::Creating, Err(error)) => Next::Done(Err(WriteFailure::Create(error))),
            (AtomicWrite::Writing, Ok(())) => Next::Ask(AtomicWrite::Renaming),
            (AtomicWrite::Writing, Err(error)) => Next::Done(Err(WriteFailure::Write(error))),
            (AtomicWrite::Renaming, Ok(())) => Next::Done(Ok(())),
            (AtomicWrite::Renaming, Err(error)) => Next::Done(Err(WriteFailure::Rename(error))),
        }
    }
}

/// The two files of a write, as far as they are there.
pub struct Files {
    pub target: Option<Seq<u8>>,
    pub temporary: Option<Seq<u8>>,
}

/// What a request does to the files, when it succeeds and when it fails. A write
/// that fails leaves anything in the temporary file: `left`.
pub open spec fn performed(
    files: Files,
    request: WriteRequest,
    done: Result<(), String>,
    contents: Seq<u8>,
    left: Seq<u8>,
) -> Files {
    match (request, done) {
        (WriteRequest::CreateTemporary, Ok(())) => Files {
            target: files.target,
            temporary: Some(Seq::empty()),
        },
        (WriteRequest::WriteTemporary, Ok(())) => Files {
            target: files.target,
            temporary: Some(contents),
        },
        (WriteRequest::WriteTemporary, Err(_)) => Files {
            target: files.target,
            temporary: Some(left),
        },
        (WriteRequest::RenameTemporary, Ok(())) => Files {
            target: files.temporary,
            temporary: None,
        },
        _ => files,
    }
}

/// The answers to a write's requests, and what a failed write left.
pub type WriteTrace = Seq<(Result<(), String>, Seq<u8>)>;

/// The files and the state of the write after the answers in `trace`; none where
/// the write ended before.
pub open spec fn write_run(before: Files, contents: Seq<u8>, trace: WriteTrace) -> Option<
    (Files, Next<AtomicWrite, Result<(), WriteFailure>>),
>
    decreases trace.len(),
{
    if trace.len() == 0 {
        Some((before, Next::Ask(AtomicWrite::Preparing)))
    } else {
        match write_run(before, contents, trace.drop_last()) {
            Some((files, Next::Ask(write))) => {
                let (done, left) = trace.last();
                Some((performed(files, write.asks(), done, contents, left), write.after(done)))
            },
            _ => None,
        }
    }
}

/// Whatever fails and wherever the write is cut off, the file holds what it held
/// before or all of the new contents; and the write succeeds if and only if it is
/// the new contents that it has put there.
pub proof fn a_file_is_never_half_written(before: Files, contents: Seq<u8>, trace: WriteTrace)
    requires
        write_run(before, contents, trace) is Some,
    ensures
        ({
            let (files, next) = write_run(before, contents, trace)->0;
            match next {
                Next::Done(Ok(())) => files.target == Some(contents),
                _ => files.target == before.target,
            }
        }),
    decreases trace.len(),
{
    lemma_write_run(before, contents, trace);
}

proof fn lemma_write_run(before: Files, contents: Seq<u8>, trace: WriteTrace)
    requires
        write_run(before, contents, trace) is Some,
    ensures
        ({
            let (files, next) = write_run(before, contents, trace)->0;
            &&& match next {
                Next::Done(Ok(())) => files.target == Some(contents),
                _ => files.target == before.target,
            }
            &&& next == Next::<AtomicWrite, Result<(), WriteFailure>>::Ask(AtomicWrite::Renaming)
                ==> files.temporary == Some(contents)
        }),
    decreases trace.len(),
{
    if trace.len() > 0 {
        lemma_write_run(before, contents, trace.drop_last());
    }
}

/// A write makes the directory, creates the temporary file, writes it and puts it in the
/// place of the file, in this order. The first of these that fails ends the write, with its
/// error, and when all have succeeded so has the write.
pub proof fn a_write_takes_its_course(before: Files, contents: Seq<u8>, trace: WriteTrace)
    requires
        write_run(before, contents, trace) is Some,
    ensures
        trace.len() <= 4,
        ({
            let next = (write_run(before, contents, trace)->0).1;
            let n = trace.len();
            if n > 0 && trace.last().0 is Err {
                let error = trace.last().0->Err_0;
                next == Next::<AtomicWrite, Result<(), WriteFailure>>::Done(
                    Err(
                        if n == 1 {
                            WriteFailure::Parent(error)
                        } else if n == 2 {
                            WriteFailure::Create(error)
                        } else if n == 3 {
                            WriteFailure::Write(error)
                        } else {
                            WriteFailure::Rename(error)
                        },
                    ),
                )
            } else if n == 4 {
                next == Next::<AtomicWrite, Result<(), WriteFailure>>::Done(Ok(()))
            } else {
                next matches Next::Ask(write) && write.asks() == if n == 0 {
                    WriteRequest::EnsureParent
                } else if n == 1 {
                    WriteRequest::CreateTemporary
                } else if n == 2 {
                    WriteRequest::WriteTemporary
                } else {
                    WriteRequest::RenameTemporary
                }
            }
        }),
{
    lemma_write_is(before, contents, trace);
    if trace.len() > 0 {
        lemma_write_is(before, contents, trace.drop_last());
    }
}

proof fn lemma_write_is(before: Files, contents: Seq<u8>, trace: WriteTrace)
    requires
        write_run(before, contents, trace) is Some,
    ensures
        match (write_run(before, contents, trace)->0).1 {
            Next::Ask(AtomicWrite::Preparing) => trace.len() == 0,
            Next::Ask(AtomicWrite::Creating) => trace.len() == 1,
            Next::Ask(AtomicWrite::Writing) => trace.len() == 2,
            Next::Ask(AtomicWrite::Renaming) => trace.len() == 3,
            Next::Done(_) => 1 <= trace.len() <= 4,
        },
    decreases trace.len(),
{
    if trace.len() > 0 {
        lemma_write_is(before, contents, trace.drop_last());
    }
}

} // verus!
