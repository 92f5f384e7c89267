//! The freed slots of a data file, kept as a stack inside a file of its own.
//!
//! The file begins with a header that holds the offset of the top of the
//! stack. The entries follow it in the order they were pushed. An entry is a
//! descriptor followed by a tail that holds the descriptor's length in bytes:
//! descriptors vary in length, tails do not, so the entry below any offset is
//! found by reading the tail first. Whatever lies at or beyond the top is
//! waste that the next push overwrites.

use vstd::prelude::*;
use vstd::utf8::*;
use crate::Error;
use crate::codec::{
    decode_descriptor, decode_int, decode_int_at, descriptor_decodable, descriptor_encodable,
    descriptor_from_slice, descriptor_to_vec, encode_descriptor, encode_int, from_slice,
    int_decodable, lemma_descriptor_round_trip, lemma_int_at, lemma_int_round_trip, to_vec,
    RecordLength,
};
use crate::image::{max_len, max_length, read_at, read_range, write_at, write_fits, write_range};

verus! {

/// The length in bytes of the header of the stack file: it is one integer.
pub const FILE_HEADER_LENGTH: usize = 8;

/// The length in bytes of the tail of an entry: it is one integer.
pub const TAIL_LENGTH: usize = 8;

/// A freed slot: the data file it lies in, where it starts and how many bytes
/// it holds.
#[derive(Debug, Clone, PartialEq, Eq)]
pub struct Pos {
    pub path: String,
    pub start_pos: usize,
    pub length: usize,
}

/// What a `Pos` stands for in contracts.
pub struct PosView {
    pub path: Seq<char>,
    pub start_pos: usize,
    pub length: usize,
}

impl PosView {
    /// A descriptor whose entry can be encoded: the bytes of the descriptor
    /// and of the tail behind it must fit into one vector.
    pub open spec fn representable(self) -> bool {
        encode_utf8(self.path).len() + 24 + TAIL_LENGTH <= max_len()
    }
}

impl View for Pos {
    type V = PosView;

    open spec fn view(&self) -> PosView {
        PosView { path: self.path@, start_pos: self.start_pos, length: self.length }
    }
}

/// The bytes of a descriptor.
pub open spec fn encode_pos(p: PosView) -> Seq<u8> {
    encode_descriptor(p.path, p.start_pos as u64, p.length as u64)
}

/// The descriptor that `bytes` begin with, if they begin with one whose
/// integers are offsets of this machine.
pub open spec fn decode_pos(bytes: Seq<u8>) -> Option<PosView> {
    let d = decode_descriptor(bytes);
    if descriptor_decodable(bytes) && d.1 <= usize::MAX && d.2 <= usize::MAX {
        Some(PosView { path: d.0, start_pos: d.1 as usize, length: d.2 as usize })
    } else {
        None
    }
}

/// The bytes of an entry: the descriptor, then the tail with its length.
pub open spec fn encode_entry(p: PosView) -> Seq<u8> {
    encode_pos(p) + encode_int(encode_pos(p).len() as u64)
}

/// A descriptor decodes to itself, whatever bytes follow it.
pub proof fn lemma_pos_round_trip(p: PosView, rest: Seq<u8>)
    requires
        p.representable(),
    ensures
        encode_pos(p).len() == encode_utf8(p.path).len() + 24,
        decode_pos(encode_pos(p) + rest) == Some(p),
{
    lemma_descriptor_round_trip(p.path, p.start_pos as u64, p.length as u64, rest);
}

impl Pos {
    pub fn new(path: String, start_pos: usize, length: usize) -> (pos: Pos)
        ensures
            pos.path@ == path@,
            pos.start_pos == start_pos,
            pos.length == length,
    {
        Pos { path: path, start_pos: start_pos, length: length }
    }

    /// The bytes of this descriptor. Fails exactly where the text is so long
    /// that they would not fit into one vector.
    pub fn to_vec(&self) -> (r: Result<Vec<u8>, Error>)
        ensures
            descriptor_encodable(self@.path) ==> r is Ok && r->Ok_0@ == encode_pos(self@),
            !descriptor_encodable(self@.path) ==> r is Err && r->Err_0.is_serde(),
    {
        descriptor_to_vec(self.path.as_str(), self.start_pos as u64, self.length as u64)
    }

    /// The descriptor that `bytes` begin with.
    pub fn from_slice(bytes: &[u8]) -> (r: Result<Pos, Error>)
        ensures
            decode_pos(bytes@) is Some ==> r is Ok && r->Ok_0@ == decode_pos(bytes@)->Some_0,
            decode_pos(bytes@) is None ==> r is Err && r->Err_0.is_deserde(),
    {
        let d = match descriptor_from_slice(bytes) {
            Ok(d) => d,
            Err(err) => {
                return Err(err);
            },
        };
        if d.1 > usize::MAX as u64 || d.2 > usize::MAX as u64 {
            return Err(Error::deserde("the descriptor holds an offset that this machine has not"));
        }
        Ok(Pos { path: d.0, start_pos: d.1 as usize, length: d.2 as usize })
    }
}

impl Default for Pos {
    fn default() -> (pos: Pos)
        ensures
            pos@ == (PosView { path: Seq::<char>::empty(), start_pos: 0, length: 0 }),
    {
        Pos { path: String::new(), start_pos: 0, length: 0 }
    }
}

/// The tail of an entry: the length in bytes of the descriptor before it.
#[derive(Debug)]
pub struct Tail {
    pub length: usize,
}

impl Tail {
    pub fn to_vec(&self) -> (r: Result<Vec<u8>, Error>)
        ensures
            r is Ok,
            r->Ok_0@ == encode_int(self.length as u64),
            r->Ok_0@.len() == TAIL_LENGTH,
    {
        to_vec(self.length as u64)
    }

    pub fn new(length: usize) -> (tail: Tail)
        ensures
            tail.length == length,
    {
        Tail { length: length }
    }
}

impl Default for Tail {
    fn default() -> (tail: Tail)
        ensures
            tail.length == 0,
    {
        Tail { length: 0 }
    }
}

/// An entry of the stack.
#[derive(Debug)]
pub struct Body {
    pub pos: Pos,
}

impl Body {
    /// The bytes of this entry. Fails exactly where the text of the
    /// descriptor is so long that they would not fit into one vector.
    pub fn to_vec(&self) -> (r: Result<Vec<u8>, Error>)
        ensures
            self.pos@.representable() ==> r is Ok && r->Ok_0@ == encode_entry(self.pos@),
            !self.pos@.representable() ==> r is Err && r->Err_0.is_serde(),
    {
        let mut pos_vec = match self.pos.to_vec() {
            Ok(v) => v,
            Err(err) => {
                return Err(err);
            },
        };
        proof {
            lemma_descriptor_round_trip(
                self.pos@.path,
                self.pos@.start_pos as u64,
                self.pos@.length as u64,
                Seq::empty(),
            );
        }
        let limit: usize = max_length();
        if pos_vec.len() > limit - TAIL_LENGTH {
            return Err(Error::serde("the text is too long for its entry to fit into a vector"));
        }
        let tail = Tail::new(pos_vec.len());
        let mut tail_vec = match tail.to_vec() {
            Ok(v) => v,
            Err(err) => {
                return Err(err);
            },
        };
        pos_vec.append(&mut tail_vec);
        Ok(pos_vec)
    }

    pub fn new(pos: Pos) -> (body: Body)
        ensures
            body.pos == pos,
    {
        Body { pos: pos }
    }
}

/// The header of the stack file: the offset of the top of the stack.
#[derive(Debug)]
pub struct FileHeader {
    pub stack_top_pos: usize,
}

impl FileHeader {
    pub fn to_vec(&self) -> (r: Result<Vec<u8>, Error>)
        ensures
            r is Ok,
            r->Ok_0@ == encode_int(self.stack_top_pos as u64),
            r->Ok_0@.len() == FILE_HEADER_LENGTH,
    {
        to_vec(self.stack_top_pos as u64)
    }

    pub fn new(stack_top_pos: usize) -> (file_header: FileHeader)
        ensures
            file_header.stack_top_pos == stack_top_pos,
    {
        FileHeader { stack_top_pos: stack_top_pos }
    }
}

impl Default for FileHeader {
    fn default() -> (file_header: FileHeader)
        ensures
            file_header.stack_top_pos == 0,
    {
        FileHeader { stack_top_pos: 0 }
    }
}

/// The top of the stack as the header of `file` gives it: none where the file
/// is too short to hold a header, or the header holds no offset at or behind
/// its own end.
pub open spec fn stored_top(file: Seq<u8>) -> Option<int> {
    if int_decodable(file) && FILE_HEADER_LENGTH <= decode_int(file) <= usize::MAX {
        Some(decode_int(file) as int)
    } else {
        None
    }
}

/// The entry that ends at `top`, with the offset at which it starts: the tail
/// is read first, then the descriptor that it measures. None where the bytes
/// are not there in full, where the entry would start inside the header, or
/// where the descriptor does not decode.
pub open spec fn top_entry(file: Seq<u8>, top: int) -> Option<(PosView, int)> {
    if FILE_HEADER_LENGTH + TAIL_LENGTH <= top <= file.len() {
        let length = decode_int_at(file, top - TAIL_LENGTH) as int;
        let start = top - TAIL_LENGTH - length;
        if start >= FILE_HEADER_LENGTH {
            match decode_pos(file.subrange(start, top - TAIL_LENGTH)) {
                Some(p) => Some((p, start)),
                None => None,
            }
        } else {
            None
        }
    } else {
        None
    }
}

/// The descriptors between the header and `top`, the oldest first: none where
/// the entries do not lead from `top` back to the end of the header.
pub open spec fn entries(file: Seq<u8>, top: int) -> Option<Seq<PosView>>
    decreases top,
{
    if top == FILE_HEADER_LENGTH {
        Some(Seq::empty())
    } else {
        match top_entry(file, top) {
            Some((p, start)) => match entries(file, start) {
                Some(below) => Some(below.push(p)),
                None => None,
            },
            None => None,
        }
    }
}

/// The stack that `file` holds, the oldest descriptor first.
pub open spec fn stack_of(file: Seq<u8>) -> Option<Seq<PosView>> {
    match stored_top(file) {
        Some(top) => entries(file, top),
        None => None,
    }
}

/// Whether an entry for `p` can be pushed: the entry can be encoded, the
/// header gives a top, and the entry can be written there.
pub open spec fn push_fits(file: Seq<u8>, p: PosView) -> bool {
    &&& p.representable()
    &&& stored_top(file) is Some
    &&& write_fits(file, stored_top(file)->Some_0, encode_entry(p).len() as int)
}

/// The file after `p` is pushed: the entry is written at the top, then the
/// header with the new top.
pub open spec fn pushed(file: Seq<u8>, p: PosView) -> Seq<u8> {
    let top = stored_top(file)->Some_0;
    let entry = encode_entry(p);
    write_range(write_range(file, top, entry), 0, encode_int((top + entry.len()) as u64))
}

/// Whether there is an entry to pop: the header gives a top behind its own
/// end, and the entry that ends there decodes.
pub open spec fn pop_fits(file: Seq<u8>) -> bool {
    &&& stored_top(file) is Some
    &&& top_entry(file, stored_top(file)->Some_0) is Some
}

/// The file after the top entry is popped: only the header changes.
pub open spec fn popped(file: Seq<u8>) -> Seq<u8> {
    write_range(file, 0, encode_int(top_entry(file, stored_top(file)->Some_0)->Some_0.1 as u64))
}

/// The ranges that a push writes, in the order it writes them: the entry at
/// the top, then the header.
pub open spec fn pushed_ranges(file: Seq<u8>, p: PosView) -> Seq<(usize, usize)> {
    seq![
        (stored_top(file)->Some_0 as usize, encode_entry(p).len() as usize),
        (0usize, FILE_HEADER_LENGTH),
    ]
}

/// The ranges that a pop of an entry writes: the header.
pub open spec fn popped_ranges() -> Seq<(usize, usize)> {
    seq![(0usize, FILE_HEADER_LENGTH)]
}

/// The ranges that opening `file` writes: the header, where the file was
/// empty.
pub open spec fn opened_ranges(file: Seq<u8>) -> Seq<(usize, usize)> {
    if file.len() == 0 {
        seq![(0usize, FILE_HEADER_LENGTH)]
    } else {
        Seq::empty()
    }
}

/// The stack file.
#[derive(Debug, Clone)]
pub struct Delete {
    file: Vec<u8>,
    header_length: RecordLength,
    tail_length: RecordLength,
    writes: Vec<(usize, usize)>,
}

impl Delete {
    /// The bytes of the file.
    pub closed spec fn image(&self) -> Seq<u8> {
        self.file@
    }

    /// The ranges of the file that the last operation wrote, each as its
    /// offset and its length, in the order they were written. Outside them
    /// the operation left the file as it was.
    pub closed spec fn last_writes(&self) -> Seq<(usize, usize)> {
        self.writes@
    }

    /// The stack that the file holds, the oldest descriptor first; none where
    /// the file is damaged.
    pub open spec fn stack(&self) -> Option<Seq<PosView>> {
        stack_of(self.image())
    }

    /// Puts `pos` on top of the stack.
    ///
    /// Fails where the entry cannot be encoded, where the header gives no
    /// top, or where the entry would end beyond the largest length a file can
    /// have; the file is then as it was. Otherwise the entry is written at
    /// the top and the header moved behind it, and a stack that was whole has
    /// `pos` as its newest descriptor.
    pub fn push(&mut self, pos: Pos) -> (r: Result<(), Error>)
        ensures
            !pos@.representable() ==> r is Err && r->Err_0.is_serde(),
            pos@.representable() && stored_top(old(self).image()) is None ==> r is Err
                && r->Err_0.is_deserde(),
            pos@.representable() && stored_top(old(self).image()) is Some && !push_fits(
                old(self).image(),
                pos@,
            ) ==> r is Err && r->Err_0.is_file_write(),
            r is Err ==> final(self).image() == old(self).image() && final(self).last_writes()
                == Seq::<(usize, usize)>::empty(),
            push_fits(old(self).image(), pos@) ==> r is Ok && final(self).image() == pushed(
                old(self).image(),
                pos@,
            ) && final(self).last_writes() == pushed_ranges(old(self).image(), pos@),
            r is Ok && old(self).stack() is Some ==> final(self).stack() == Some(
                old(self).stack()->Some_0.push(pos@),
            ),
    {
        self.writes = Vec::new();
        let body = Body::new(pos);
        let body_vec = match body.to_vec() {
            Ok(v) => v,
            Err(err) => {
                return Err(err);
            },
        };
        let file_header = match self.get_file_header() {
            Ok(h) => h,
            Err(err) => {
                return Err(err);
            },
        };
        if let Err(err) = write_at(&mut self.file, file_header.stack_top_pos, &body_vec) {
            return Err(err);
        }
        self.writes.push((file_header.stack_top_pos, body_vec.len()));
        if let Err(err) = self.update_file_header(
            FileHeader::new(file_header.stack_top_pos + body_vec.len()),
        ) {
            return Err(err);
        }
        proof {
            lemma_push(old(self).image(), pos@);
            assert(self.writes@ =~= pushed_ranges(old(self).image(), pos@));
        }
        Ok(())
    }

    /// Takes the newest descriptor off the stack.
    ///
    /// Fails where the header gives no top, or where the top lies behind the
    /// header and no entry that decodes ends there; the file is then as it
    /// was. Returns none, and leaves the file as it was, where the top is the
    /// end of the header. Otherwise returns the descriptor of the entry that
    /// ends at the top and moves the header to where that entry starts.
    pub fn pop(&mut self) -> (r: Result<Option<Pos>, Error>)
        ensures
            stored_top(old(self).image()) is None ==> r is Err && r->Err_0.is_deserde(),
            stored_top(old(self).image()) == Some(FILE_HEADER_LENGTH as int) ==> r is Ok
                && r->Ok_0 is None,
            stored_top(old(self).image()) is Some && stored_top(old(self).image()) != Some(
                FILE_HEADER_LENGTH as int,
            ) && !pop_fits(old(self).image()) ==> r is Err && r->Err_0.is_deserde(),
            r is Err || r->Ok_0 is None ==> final(self).image() == old(self).image() && final(self).last_writes() == Seq::<(usize, usize)>::empty(),
            stored_top(old(self).image()) != Some(FILE_HEADER_LENGTH as int) && pop_fits(
                old(self).image(),
            ) ==> r is Ok && r->Ok_0 is Some && r->Ok_0->Some_0@ == top_entry(
                old(self).image(),
                stored_top(old(self).image())->Some_0,
            )->Some_0.0 && final(self).image() == popped(old(self).image()) && final(self).last_writes() == popped_ranges(),
            old(self).stack() is Some && old(self).stack()->Some_0.len() == 0 ==> r is Ok
                && r->Ok_0 is None,
            old(self).stack() is Some && old(self).stack()->Some_0.len() > 0 ==> r is Ok
                && r->Ok_0 is Some && r->Ok_0->Some_0@ == old(self).stack()->Some_0.last()
                && final(self).stack() == Some(old(self).stack()->Some_0.drop_last()),
    {
        proof {
            lemma_pop(old(self).image());
        }
        self.writes = Vec::new();
        let top = match self.read_top() {
            Ok(t) => t,
            Err(err) => {
                return Err(err);
            },
        };
        match top {
            None => Ok(None),
            Some((pos, start)) => {
                if let Err(err) = self.update_file_header(FileHeader::new(start)) {
                    return Err(err);
                }
                proof {
                    assert(self.writes@ =~= popped_ranges());
                }
                Ok(Some(pos))
            },
        }
    }

    /// Reads the entry that ends at the top, without taking it off the stack:
    /// its descriptor and the offset at which it starts, or none where the
    /// top is the end of the header. The tail is read first, then the
    /// descriptor that it measures.
    ///
    /// Fails where the header gives no top, and where the top lies behind the
    /// header and no entry that decodes ends there.
    pub fn read_top(&self) -> (r: Result<Option<(Pos, usize)>, Error>)
        ensures
            stored_top(self.image()) is None ==> r is Err && r->Err_0.is_deserde(),
            stored_top(self.image()) == Some(FILE_HEADER_LENGTH as int) ==> r is Ok && r->Ok_0
                is None,
            stored_top(self.image()) is Some && stored_top(self.image()) != Some(
                FILE_HEADER_LENGTH as int,
            ) && !pop_fits(self.image()) ==> r is Err && r->Err_0.is_deserde(),
            stored_top(self.image()) != Some(FILE_HEADER_LENGTH as int) && pop_fits(
                self.image(),
            ) ==> r is Ok && r->Ok_0 is Some && (r->Ok_0->Some_0.0@, r->Ok_0->Some_0.1 as int)
                == top_entry(self.image(), stored_top(self.image())->Some_0)->Some_0,
    {
        let header_length: usize = self.header_length.get();
        let tail_length: usize = self.tail_length.get();
        let file_header = match self.get_file_header() {
            Ok(h) => h,
            Err(err) => {
                return Err(err);
            },
        };
        let top: usize = file_header.stack_top_pos;
        if top == header_length {
            return Ok(None);
        }
        if top - header_length < tail_length {
            return Err(Error::deserde("the top of the stack leaves no room for a tail"));
        }
        let tail = match self.deserde_tail(top - tail_length) {
            Ok(t) => t,
            Err(err) => {
                return Err(err);
            },
        };
        if tail.length > top - tail_length - header_length {
            return Err(Error::deserde("the tail measures a descriptor that begins in the header"));
        }
        let start: usize = top - tail_length - tail.length;
        let pos = match self.deserde_pos(start, tail.length) {
            Ok(p) => p,
            Err(err) => {
                return Err(err);
            },
        };
        Ok(Some((pos, start)))
    }

    /// Reads the descriptor of `length` bytes at `offset`.
    pub fn deserde_pos(&self, offset: usize, length: usize) -> (r: Result<Pos, Error>)
        ensures
            decode_pos(read_range(self.image(), offset as int, length as int)) is Some ==> r is Ok
                && r->Ok_0@ == decode_pos(
                read_range(self.image(), offset as int, length as int),
            )->Some_0,
            decode_pos(read_range(self.image(), offset as int, length as int)) is None ==> r is Err
                && r->Err_0.is_deserde(),
    {
        let content = read_at(&self.file, offset, length);
        Pos::from_slice(content.as_slice())
    }

    /// Reads the tail at `offset`.
    pub fn deserde_tail(&self, offset: usize) -> (r: Result<Tail, Error>)
        ensures
            offset + TAIL_LENGTH <= self.image().len() && decode_int_at(
                self.image(),
                offset as int,
            ) <= usize::MAX ==> r is Ok && r->Ok_0.length == decode_int_at(
                self.image(),
                offset as int,
            ),
            !(offset + TAIL_LENGTH <= self.image().len() && decode_int_at(
                self.image(),
                offset as int,
            ) <= usize::MAX) ==> r is Err && r->Err_0.is_deserde(),
    {
        let content = read_at(&self.file, offset, self.tail_length.get());
        proof {
            if offset + TAIL_LENGTH <= self.file@.len() {
                assert(content@.subrange(0, 8) =~= self.file@.subrange(offset as int, offset + 8));
            }
        }
        let length: u64 = match from_slice(content.as_slice()) {
            Ok(t) => t,
            Err(err) => {
                return Err(err);
            },
        };
        if length > usize::MAX as u64 {
            return Err(Error::deserde("the tail holds a length that this machine has not"));
        }
        Ok(Tail::new(length as usize))
    }

    /// Reads the header of the file.
    ///
    /// Fails where the file is too short to hold a header, and where the
    /// header holds no offset at or behind its own end.
    pub fn get_file_header(&self) -> (r: Result<FileHeader, Error>)
        ensures
            stored_top(self.image()) is Some ==> r is Ok && r->Ok_0.stack_top_pos == stored_top(
                self.image(),
            )->Some_0,
            stored_top(self.image()) is None ==> r is Err && r->Err_0.is_deserde(),
    {
        let header_length: usize = self.header_length.get();
        let content = read_at(&self.file, 0, header_length);
        proof {
            if self.file@.len() >= 8 {
                assert(content@.subrange(0, 8) =~= self.file@.subrange(0, 8));
            }
        }
        let top: u64 = match from_slice(content.as_slice()) {
            Ok(h) => h,
            Err(err) => {
                return Err(err);
            },
        };
        if top > usize::MAX as u64 {
            return Err(Error::deserde("the header holds an offset that this machine has not"));
        }
        if top < header_length as u64 {
            return Err(Error::deserde("the header puts the top of the stack inside itself"));
        }
        Ok(FileHeader::new(top as usize))
    }

    /// Writes `file_header` at the start of the file.
    pub(crate) fn update_file_header(&mut self, file_header: FileHeader) -> (r: Result<(), Error>)
        ensures
            r is Ok,
            final(self).image() == write_range(
                old(self).image(),
                0,
                encode_int(file_header.stack_top_pos as u64),
            ),
            final(self).last_writes() == old(self).last_writes().push(
                (0usize, FILE_HEADER_LENGTH),
            ),
    {
        let file_header_vec = match file_header.to_vec() {
            Ok(v) => v,
            Err(err) => {
                return Err(err);
            },
        };
        if let Err(err) = write_at(&mut self.file, 0, &file_header_vec) {
            return Err(err);
        }
        self.writes.push((0, file_header_vec.len()));
        Ok(())
    }

    /// Forgets the ranges that the last operation wrote.
    pub(crate) fn clear_writes(&mut self)
        ensures
            final(self).image() == old(self).image(),
            final(self).last_writes() == Seq::<(usize, usize)>::empty(),
    {
        self.writes = Vec::new();
    }

    /// The length of the file in bytes.
    pub fn get_file_size(&self) -> (size: usize)
        ensures
            size == self.image().len(),
    {
        self.file.len()
    }

    /// The bytes of the file.
    pub fn file(&self) -> (file: &Vec<u8>)
        ensures
            file@ == self.image(),
    {
        &self.file
    }

    /// The ranges of the file that the last operation wrote, in the order
    /// they were written.
    pub fn writes(&self) -> (writes: &Vec<(usize, usize)>)
        ensures
            writes@ == self.last_writes(),
    {
        &self.writes
    }

    /// Opens the stack that `file` holds. An empty file gets a header whose
    /// top is the header's own end, which makes it an empty stack; any other
    /// file is taken as it is.
    pub fn new(file: Vec<u8>) -> (r: Result<Delete, Error>)
        ensures
            r is Ok,
            r->Ok_0.image() == opened(file@),
            r->Ok_0.last_writes() == opened_ranges(file@),
            file@.len() == 0 ==> r->Ok_0.stack() == Some(Seq::<PosView>::empty()) && stored_top(
                r->Ok_0.image(),
            ) == Some(FILE_HEADER_LENGTH as int),
    {
        let header_length = match RecordLength::measure() {
            Ok(l) => l,
            Err(err) => {
                return Err(err);
            },
        };
        let tail_length = match RecordLength::measure() {
            Ok(l) => l,
            Err(err) => {
                return Err(err);
            },
        };
        let mut delete = Delete {
            file: file,
            header_length: header_length,
            tail_length: tail_length,
            writes: Vec::new(),
        };
        let size: usize = delete.get_file_size();
        if size == 0 {
            if let Err(err) = delete.update_file_header(
                FileHeader::new(delete.header_length.get()),
            ) {
                return Err(err);
            }
            proof {
                lemma_reopen(file@);
                assert(delete.file@ =~= encode_int(FILE_HEADER_LENGTH as u64));
                lemma_pop(delete.file@);
                assert(delete.writes@ =~= opened_ranges(file@));
            }
        }
        Ok(delete)
    }
}

/// Entries below `top` are read from the bytes between the header and `top`
/// alone.
pub proof fn lemma_entries_frame(a: Seq<u8>, b: Seq<u8>, top: int)
    requires
        top <= a.len(),
        top <= b.len(),
        forall|i: int| FILE_HEADER_LENGTH <= i < top ==> a[i] == b[i],
    ensures
        entries(a, top) == entries(b, top),
    decreases top,
{
    if top != FILE_HEADER_LENGTH && FILE_HEADER_LENGTH + TAIL_LENGTH <= top {
        assert(a.subrange(top - 8, top) =~= b.subrange(top - 8, top));
        let length = decode_int_at(a, top - TAIL_LENGTH) as int;
        let start = top - TAIL_LENGTH - length;
        if start >= FILE_HEADER_LENGTH {
            assert(a.subrange(start, top - 8) =~= b.subrange(start, top - 8));
            if top_entry(a, top) is Some {
                lemma_entries_frame(a, b, start);
            }
        }
    }
}

/// A stack that is whole ends inside its file.
pub proof fn lemma_entries_inside(file: Seq<u8>, top: int)
    requires
        entries(file, top) is Some,
        file.len() >= FILE_HEADER_LENGTH,
    ensures
        FILE_HEADER_LENGTH <= top <= file.len(),
{
}

/// Pushing writes an entry that pops as the descriptor that was pushed, and
/// leaves every entry below it as it was.
pub proof fn lemma_push(file: Seq<u8>, p: PosView)
    requires
        push_fits(file, p),
    ensures
        stored_top(pushed(file, p)) == Some(stored_top(file)->Some_0 + encode_entry(p).len()),
        top_entry(pushed(file, p), stored_top(pushed(file, p))->Some_0) == Some(
            (p, stored_top(file)->Some_0),
        ),
        pop_fits(pushed(file, p)),
        stored_top(popped(pushed(file, p))) == stored_top(file),
        stack_of(file) is Some ==> stack_of(pushed(file, p)) == Some(
            stack_of(file)->Some_0.push(p),
        ) && stack_of(popped(pushed(file, p))) == stack_of(file),
{
    let top = stored_top(file)->Some_0;
    let entry = encode_entry(p);
    let desc = encode_pos(p);
    let new_top = top + entry.len();
    let mid = write_range(file, top, entry);
    let after = pushed(file, p);
    lemma_pos_round_trip(p, Seq::empty());
    assert(desc + Seq::<u8>::empty() =~= desc);
    lemma_int_round_trip(desc.len() as u64, Seq::empty());
    assert(entry.len() == desc.len() + 8);
    lemma_int_round_trip(new_top as u64, Seq::empty());
    lemma_int_round_trip(top as u64, Seq::empty());
    assert(after.len() >= new_top);
    assert(after.subrange(0, 8) =~= encode_int(new_top as u64));
    lemma_int_at(after, 0, new_top as u64);
    assert(after.subrange(new_top - 8, new_top) =~= encode_int(desc.len() as u64));
    lemma_int_at(after, new_top - 8, desc.len() as u64);
    assert(after.subrange(top, new_top - 8) =~= desc);
    let back = popped(after);
    assert(back.subrange(0, 8) =~= encode_int(top as u64));
    lemma_int_at(back, 0, top as u64);
    if stack_of(file) is Some {
        lemma_entries_inside(file, top);
        lemma_entries_frame(file, after, top);
        lemma_entries_frame(file, back, top);
    }
}

/// Popping returns the newest descriptor of a stack that is whole and leaves
/// the others; of an empty stack it finds the top at the end of the header.
pub proof fn lemma_pop(file: Seq<u8>)
    ensures
        stack_of(file) is Some && stack_of(file)->Some_0.len() == 0 ==> stored_top(file) == Some(
            FILE_HEADER_LENGTH as int,
        ),
        stack_of(file) is Some && stack_of(file)->Some_0.len() > 0 ==> stored_top(file) != Some(
            FILE_HEADER_LENGTH as int,
        ) && pop_fits(file) && top_entry(file, stored_top(file)->Some_0)->Some_0.0 == stack_of(
            file,
        )->Some_0.last() && stack_of(popped(file)) == Some(stack_of(file)->Some_0.drop_last()),
{
    if stack_of(file) is Some {
        let top = stored_top(file)->Some_0;
        if top != FILE_HEADER_LENGTH {
            let (p, start) = top_entry(file, top)->Some_0;
            let below = entries(file, start)->Some_0;
            assert(stack_of(file)->Some_0 == below.push(p));
            assert(below.push(p).drop_last() =~= below);
            let after = popped(file);
            lemma_int_round_trip(start as u64, Seq::empty());
            assert(after.subrange(0, 8) =~= encode_int(start as u64));
            lemma_int_at(after, 0, start as u64);
            lemma_entries_frame(file, after, start);
        }
    }
}

/// The file as `Delete::new` takes it up: an empty file gets the header of an
/// empty stack, any other file stays as it is.
pub open spec fn opened(file: Seq<u8>) -> Seq<u8> {
    if file.len() == 0 {
        encode_int(FILE_HEADER_LENGTH as u64)
    } else {
        file
    }
}

/// The file after the descriptors `ds` are pushed, the first of them first.
pub open spec fn pushed_all(file: Seq<u8>, ds: Seq<PosView>) -> Seq<u8>
    decreases ds.len(),
{
    if ds.len() == 0 {
        file
    } else {
        pushed(pushed_all(file, ds.drop_last()), ds.last())
    }
}

/// Whether the descriptors `ds` can be pushed one after the other.
pub open spec fn push_all_fits(file: Seq<u8>, ds: Seq<PosView>) -> bool
    decreases ds.len(),
{
    ds.len() == 0 || (push_all_fits(file, ds.drop_last()) && push_fits(
        pushed_all(file, ds.drop_last()),
        ds.last(),
    ))
}

/// The file after `n` entries are popped.
pub open spec fn popped_times(file: Seq<u8>, n: nat) -> Seq<u8>
    decreases n,
{
    if n == 0 {
        file
    } else {
        popped_times(popped(file), (n - 1) as nat)
    }
}

/// Whether a pop on `file` returns the descriptor `p`: the top lies behind
/// the header, and the entry that ends there decodes to `p`.
pub open spec fn pops(file: Seq<u8>, p: PosView) -> bool {
    &&& stored_top(file) != Some(FILE_HEADER_LENGTH as int)
    &&& pop_fits(file)
    &&& top_entry(file, stored_top(file)->Some_0)->Some_0.0 == p
}

/// Opening changes no file that holds a header, and opening twice is opening
/// once: what a stack holds is read from its file alone. An empty file opens
/// as an empty stack.
pub proof fn lemma_reopen(file: Seq<u8>)
    ensures
        opened(opened(file)) == opened(file),
        stored_top(file) is Some ==> opened(file) == file,
        file.len() == 0 ==> stack_of(opened(file)) == Some(Seq::<PosView>::empty()),
{
    lemma_int_round_trip(FILE_HEADER_LENGTH as u64, Seq::empty());
    let fresh = encode_int(FILE_HEADER_LENGTH as u64);
    assert(fresh.subrange(0, 8) =~= fresh);
    lemma_int_at(fresh, 0, FILE_HEADER_LENGTH as u64);
}

/// Pushing descriptors onto a stack that is whole puts them on top of it in
/// the order they were pushed.
pub proof fn lemma_push_all(file: Seq<u8>, ds: Seq<PosView>)
    requires
        stack_of(file) is Some,
        push_all_fits(file, ds),
    ensures
        stack_of(pushed_all(file, ds)) == Some(stack_of(file)->Some_0 + ds),
    decreases ds.len(),
{
    let s = stack_of(file)->Some_0;
    if ds.len() == 0 {
        assert(s + ds =~= s);
    } else {
        let init = ds.drop_last();
        lemma_push_all(file, init);
        lemma_push(pushed_all(file, init), ds.last());
        assert((s + init).push(ds.last()) =~= s + ds);
    }
}

/// Popping `n` times from a stack that is whole and holds at least `n`
/// descriptors returns them newest first and leaves the others.
pub proof fn lemma_pop_times(file: Seq<u8>, n: nat)
    requires
        stack_of(file) is Some,
        n <= stack_of(file)->Some_0.len(),
    ensures
        stack_of(popped_times(file, n)) == Some(
            stack_of(file)->Some_0.take(stack_of(file)->Some_0.len() - n),
        ),
        forall|i: nat|
            i < n ==> pops(
                #[trigger] popped_times(file, i),
                stack_of(file)->Some_0[stack_of(file)->Some_0.len() - 1 - i],
            ),
    decreases n,
{
    let s = stack_of(file)->Some_0;
    if n == 0 {
        assert(s.take(s.len() as int) =~= s);
    } else {
        lemma_pop(file);
        let g = popped(file);
        let t = s.drop_last();
        lemma_pop_times(g, (n - 1) as nat);
        assert(t.take(t.len() - (n - 1)) =~= s.take(s.len() - n));
        assert forall|i: nat| i < n implies pops(
            #[trigger] popped_times(file, i),
            s[s.len() - 1 - i],
        ) by {
            if i > 0 {
                let j = (i - 1) as nat;
                assert(popped_times(file, i) == popped_times(g, j));
                assert(pops(popped_times(g, j), t[t.len() - 1 - j]));
            }
        }
    }
}

/// Last in, first out: after the descriptors `ds` are pushed onto a stack
/// that is whole, as many pops return them in reverse order and leave the
/// stack as it was before; where it was empty before, the pop after them
/// finds the top at the end of the header and returns none.
pub proof fn lemma_last_in_first_out(file: Seq<u8>, ds: Seq<PosView>)
    requires
        stack_of(file) is Some,
        push_all_fits(file, ds),
    ensures
        forall|i: nat|
            i < ds.len() ==> pops(
                #[trigger] popped_times(pushed_all(file, ds), i),
                ds[ds.len() - 1 - i],
            ),
        stack_of(popped_times(pushed_all(file, ds), ds.len())) == stack_of(file),
        stack_of(file)->Some_0.len() == 0 ==> stored_top(
            popped_times(pushed_all(file, ds), ds.len()),
        ) == Some(FILE_HEADER_LENGTH as int),
{
    let s = stack_of(file)->Some_0;
    let full = pushed_all(file, ds);
    lemma_push_all(file, ds);
    lemma_pop_times(full, ds.len());
    assert((s + ds).take(s.len() as int) =~= s);
    assert forall|i: nat| i < ds.len() implies pops(
        #[trigger] popped_times(full, i),
        ds[ds.len() - 1 - i],
    ) by {
        assert((s + ds)[(s + ds).len() - 1 - i] == ds[ds.len() - 1 - i]);
    }
    lemma_pop(popped_times(full, ds.len()));
}

} // verus!
