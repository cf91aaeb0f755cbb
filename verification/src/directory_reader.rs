//! The two collaborators of the decoders: an input positioned in one file, and
//! a directory from which files are opened by name.

use crate::collections::StringMap;
use crate::cursor::{cursor_over, remaining, unread};
use crate::util::{
    left_by, parse_bytes, parse_id, parse_string, parse_u32_be, parse_u64_be, parse_u8,
    parse_utf8, parse_vint, read_bytes, read_id, read_string, read_string_fixed, read_u32_be,
    read_u64_be, read_u8, read_vint, ReadError,
};
use bytes::Bytes;
use vstd::prelude::*;

verus! {

/// Length in bytes of every identifier in the format.
pub const ID_LENGTH: usize = 16;

/// An input over the bytes of one file. It only moves forward.
pub struct IndexInput {
    pub bytes: Bytes,
}

impl View for IndexInput {
    type V = Seq<u8>;

    /// The bytes not read yet.
    open spec fn view(&self) -> Seq<u8> {
        unread(self.bytes)
    }
}

impl IndexInput {
    /// An input at the start of `bytes`.
    pub fn new(bytes: Vec<u8>) -> (input: Self)
        ensures
            input@ == bytes@,
    {
        Self { bytes: cursor_over(bytes) }
    }

    /// The number of bytes not read yet.
    pub fn remaining(&self) -> (n: usize)
        ensures
            n == self@.len(),
    {
        remaining(&self.bytes)
    }

    /// Reads one byte.
    pub fn read_byte(&mut self) -> (r: Result<u8, ReadError>)
        ensures
            match parse_u8(old(self)@) {
                Ok((value, _)) => r == Ok::<u8, ReadError>(value),
                Err(e) => r == Err::<u8, ReadError>(e),
            },
            left_by(parse_u8(old(self)@), old(self)@, final(self)@),
            r is Err ==> final(self)@ == old(self)@,
    {
        read_u8(&mut self.bytes)
    }

    /// Reads a big-endian `u32`.
    pub fn read_int(&mut self) -> (r: Result<u32, ReadError>)
        ensures
            match parse_u32_be(old(self)@) {
                Ok((value, _)) => r == Ok::<u32, ReadError>(value),
                Err(e) => r == Err::<u32, ReadError>(e),
            },
            left_by(parse_u32_be(old(self)@), old(self)@, final(self)@),
            r is Err ==> final(self)@ == old(self)@,
    {
        read_u32_be(&mut self.bytes)
    }

    /// Reads a big-endian `u64`.
    pub fn read_long(&mut self) -> (r: Result<u64, ReadError>)
        ensures
            match parse_u64_be(old(self)@) {
                Ok((value, _)) => r == Ok::<u64, ReadError>(value),
                Err(e) => r == Err::<u64, ReadError>(e),
            },
            left_by(parse_u64_be(old(self)@), old(self)@, final(self)@),
            r is Err ==> final(self)@ == old(self)@,
    {
        read_u64_be(&mut self.bytes)
    }

    /// Reads the next `length` bytes as UTF-8 text.
    pub fn read_string(&mut self, length: usize) -> (r: Result<String, ReadError>)
        ensures
            match parse_utf8(old(self)@, length as nat) {
                Ok((text, _)) => r matches Ok(s) && s@ == text,
                Err(e) => r == Err::<String, ReadError>(e),
            },
            left_by(parse_utf8(old(self)@, length as nat), old(self)@, final(self)@),
    {
        read_string_fixed(&mut self.bytes, length)
    }

    /// Reads the next `length` bytes.
    pub fn read_bytes(&mut self, length: usize) -> (r: Result<Vec<u8>, ReadError>)
        ensures
            match parse_bytes(old(self)@, length as nat) {
                Ok((raw, _)) => r matches Ok(taken) && taken@ == raw,
                Err(e) => r == Err::<Vec<u8>, ReadError>(e),
            },
            left_by(parse_bytes(old(self)@, length as nat), old(self)@, final(self)@),
            r is Err ==> final(self)@ == old(self)@,
    {
        read_bytes(&mut self.bytes, length)
    }

    /// Reads a varint length and then that many bytes as UTF-8 text.
    pub fn read_variable_string(&mut self) -> (r: Result<String, ReadError>)
        ensures
            match parse_string(old(self)@) {
                Ok((text, _)) => r matches Ok(s) && s@ == text,
                Err(e) => r == Err::<String, ReadError>(e),
            },
            left_by(parse_string(old(self)@), old(self)@, final(self)@),
    {
        read_string(&mut self.bytes)
    }

    /// Reads a base-128 varint of up to five bytes.
    pub fn read_variable_int(&mut self) -> (r: Result<u32, ReadError>)
        ensures
            match parse_vint(old(self)@) {
                Ok((value, _)) => r == Ok::<u32, ReadError>(value),
                Err(e) => r == Err::<u32, ReadError>(e),
            },
            left_by(parse_vint(old(self)@), old(self)@, final(self)@),
    {
        read_vint(&mut self.bytes)
    }

    /// Reads an identifier of [`ID_LENGTH`] bytes.
    pub fn read_id(&mut self) -> (r: Result<Vec<u8>, ReadError>)
        ensures
            match parse_id(old(self)@) {
                Ok((raw, _)) => r matches Ok(id) && id@ == raw,
                Err(e) => r == Err::<Vec<u8>, ReadError>(e),
            },
            left_by(parse_id(old(self)@), old(self)@, final(self)@),
            r is Err ==> final(self)@ == old(self)@,
    {
        read_id(&mut self.bytes)
    }
}

/// The files of one index directory, each under its name with all its bytes.
///
/// A reader is filled once, from whatever holds the files, and is read-only to
/// the decoders.
#[derive(Debug)]
pub struct DirectoryReader {
    files: StringMap<Vec<u8>>,
}

impl View for DirectoryReader {
    type V = Map<Seq<char>, Seq<u8>>;

    closed spec fn view(&self) -> Map<Seq<char>, Seq<u8>> {
        self.files@
    }
}

impl DirectoryReader {
    /// A directory without files.
    pub fn new() -> (directory: Self)
        ensures
            directory@ == Map::<Seq<char>, Seq<u8>>::empty(),
    {
        DirectoryReader { files: StringMap::new() }
    }

    /// Puts a file into the directory. A file that was there under the same
    /// name is replaced.
    pub fn add_file(&mut self, name: String, contents: Vec<u8>)
        ensures
            final(self)@ == old(self)@.insert(name@, contents@),
    {
        self.files.insert(name, contents);
    }

    /// The names of the files, each once.
    pub fn file_names(&self) -> (names: &Vec<String>)
        ensures
            crate::collections::texts(names@).to_set() == self@.dom(),
            crate::collections::texts(names@).no_duplicates(),
    {
        self.files.keys()
    }

    /// Opens the file `segment_file_name`: an input at its first byte, or
    /// `None` where the directory has no such file.
    pub fn open(&self, segment_file_name: &str) -> (input: Option<IndexInput>)
        ensures
            match input {
                Some(input) => self@.contains_key(segment_file_name@) && input@
                    == self@[segment_file_name@],
                None => !self@.contains_key(segment_file_name@),
            },
    {
        match self.read_file(segment_file_name) {
            Some(bytes) => Some(IndexInput { bytes }),
            None => None,
        }
    }

    /// The bytes of the file `file_name`, all unread, or `None` where the
    /// directory has no such file.
    pub fn read_file(&self, file_name: &str) -> (bytes: Option<Bytes>)
        ensures
            match bytes {
                Some(bytes) => self@.contains_key(file_name@) && unread(bytes)
                    == self@[file_name@],
                None => !self@.contains_key(file_name@),
            },
    {
        match self.files.get(file_name) {
            Some(contents) => Some(cursor_over(contents.clone())),
            None => None,
        }
    }
}

} // verus!
