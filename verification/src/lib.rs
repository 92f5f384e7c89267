//! A persistent free list, kept as a stack inside a file, and an allocator of
//! fixed-capacity blocks that recycles freed slots through it.
//!
//! Files are handled as byte images: every operation takes the bytes a file
//! holds and leaves the bytes it should hold afterwards, so that reopening a
//! store needs nothing but the images themselves.

use vstd::prelude::*;
use vstd::string::*;

pub mod codec;
pub mod image;
pub mod multifile;

verus! {

/// What went wrong, with the underlying message where there is one.
#[derive(Debug)]
pub enum Code {
    NotImplement(Option<String>),
    SerdeError(Option<String>),
    DeserdeError(Option<String>),
    OpenFileError(Option<String>),
    FileMetadataError(Option<String>),
    FileSeekError(Option<String>),
    FileWriteError(Option<String>),
    FileReadError(Option<String>),
    CreateDirError(Option<String>),
    LimitError(Option<String>),
}

/// The error every fallible operation of this crate returns.
#[derive(Debug)]
pub struct Error {
    pub code: Option<Code>,
}

impl Error {
    /// A record could not be encoded. The error says why.
    pub open spec fn is_serde(&self) -> bool {
        self.code matches Some(Code::SerdeError(Some(_)))
    }

    /// Stored bytes do not decode to the record expected at their place. The
    /// error says why.
    pub open spec fn is_deserde(&self) -> bool {
        self.code matches Some(Code::DeserdeError(Some(_)))
    }

    /// A block was named that is none of the file. The error says why.
    pub open spec fn is_file_seek(&self) -> bool {
        self.code matches Some(Code::FileSeekError(Some(_)))
    }

    /// A write would make a file longer than a file can be. The error says
    /// why.
    pub open spec fn is_file_write(&self) -> bool {
        self.code matches Some(Code::FileWriteError(Some(_)))
    }

    /// More bytes were offered than there is room for. The error says why.
    pub open spec fn is_limit(&self) -> bool {
        self.code matches Some(Code::LimitError(Some(_)))
    }

    /// An encoding error that says `text`.
    pub fn serde(text: &str) -> (e: Error)
        ensures
            e.code matches Some(Code::SerdeError(Some(s))) && s@ == text@,
    {
        Error { code: Some(Code::SerdeError(Some(String::from_str(text)))) }
    }

    /// A decoding error that says `text`.
    pub fn deserde(text: &str) -> (e: Error)
        ensures
            e.code matches Some(Code::DeserdeError(Some(s))) && s@ == text@,
    {
        Error { code: Some(Code::DeserdeError(Some(String::from_str(text)))) }
    }

    /// A seek error that says `text`.
    pub fn file_seek(text: &str) -> (e: Error)
        ensures
            e.code matches Some(Code::FileSeekError(Some(s))) && s@ == text@,
    {
        Error { code: Some(Code::FileSeekError(Some(String::from_str(text)))) }
    }

    /// A write error that says `text`.
    pub fn file_write(text: &str) -> (e: Error)
        ensures
            e.code matches Some(Code::FileWriteError(Some(s))) && s@ == text@,
    {
        Error { code: Some(Code::FileWriteError(Some(String::from_str(text)))) }
    }

    /// A limit error that says `text`.
    pub fn limit(text: &str) -> (e: Error)
        ensures
            e.code matches Some(Code::LimitError(Some(s))) && s@ == text@,
    {
        Error { code: Some(Code::LimitError(Some(String::from_str(text)))) }
    }
}

} // verus!
