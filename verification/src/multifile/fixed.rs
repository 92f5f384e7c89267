//! Blocks of one fixed capacity inside a data file.
//!
//! The data file is a row of blocks and nothing else. A block is a header of
//! one integer followed by as many bytes as the store gives every block. The
//! integer says how many of those bytes, from the front, hold the caller's own
//! header; the caller's body follows them. Freed blocks are remembered on a
//! stack in a second file and handed out again before the data file grows.

use vstd::prelude::*;
use vstd::string::*;
use vstd::utf8::*;
use crate::Error;
use crate::codec::{
    decode_int_at, encode_int, from_slice, lemma_int_at, lemma_int_round_trip, lemma_int_zero,
    to_vec, RecordLength,
};
use crate::image::{max_len, max_length, new_u8_vec_with_size, read_at, write_at, write_range, zeros};
use crate::multifile::delete::stack::{
    lemma_pop, lemma_push, opened, opened_ranges, pop_fits, popped, popped_ranges, push_fits,
    pushed, pushed_ranges, stack_of, stored_top, top_entry, Delete, FileHeader, Pos, PosView,
    FILE_HEADER_LENGTH,
};

verus! {

/// The length in bytes of the header of a block: it is one integer.
pub const BLOCK_HEADER_LENGTH: usize = 8;

/// The header of a block: how many bytes of the block hold the caller's
/// header.
#[derive(Debug)]
pub struct BlockHeader {
    pub header_size: usize,
}

impl BlockHeader {
    pub fn to_vec(&self) -> (r: Result<Vec<u8>, Error>)
        ensures
            r is Ok,
            r->Ok_0@ == encode_int(self.header_size as u64),
            r->Ok_0@.len() == BLOCK_HEADER_LENGTH,
    {
        to_vec(self.header_size as u64)
    }

    pub fn new(header_size: usize) -> (block_header: BlockHeader)
        ensures
            block_header.header_size == header_size,
    {
        BlockHeader { header_size: header_size }
    }
}

impl Default for BlockHeader {
    fn default() -> (block_header: BlockHeader)
        ensures
            block_header.header_size == 0,
    {
        BlockHeader { header_size: 0 }
    }
}

/// The name of the file that holds the freed slots of the data file `name`.
/// Fails exactly where `name` is so long that no string can hold the longer
/// name.
pub fn delete_record_name(name: &str) -> (r: Result<String, Error>)
    ensures
        encode_utf8(name@).len() + 10 <= max_len() ==> r is Ok && r->Ok_0@ == name@
            + "_delete.rd"@,
        encode_utf8(name@).len() + 10 > max_len() ==> r is Err && r->Err_0.is_limit(),
{
    let text: &[u8] = name.as_bytes();
    let limit: usize = max_length();
    if text.len() > limit - 10 {
        return Err(Error::limit("the name is too long to be made longer"));
    }
    let mut delete_record_name = String::from_str(name);
    delete_record_name.append("_delete.rd");
    Ok(delete_record_name)
}

/// A block that was handed out: the data file it lies in, the offset of its
/// header, and the number of bytes it holds behind that header.
#[derive(Debug)]
pub struct Block {
    path: String,
    start_pos: usize,
    length: usize,
}

impl View for Block {
    type V = PosView;

    closed spec fn view(&self) -> PosView {
        PosView { path: self.path@, start_pos: self.start_pos, length: self.length }
    }
}

/// Whether the block `b` lies inside `file` in full.
pub open spec fn block_inside(file: Seq<u8>, b: PosView) -> bool {
    b.start_pos + BLOCK_HEADER_LENGTH + b.length <= file.len()
}

/// Whether `b` is a block of the store whose data file `file` lies at
/// `file_path` and whose blocks hold `fixed_size` bytes: it names that file,
/// holds that many bytes and lies inside the file.
pub open spec fn own_block(file: Seq<u8>, b: PosView, file_path: Seq<char>, fixed_size: usize) -> bool {
    b.path == file_path && b.length == fixed_size && block_inside(file, b)
}

/// The number of bytes of its caller's header that the header of `b` gives,
/// if the block lies inside the file and its header gives a number that fits
/// into the block.
pub open spec fn stored_header_size(file: Seq<u8>, b: PosView) -> Option<int> {
    if block_inside(file, b) && decode_int_at(file, b.start_pos as int) <= b.length {
        Some(decode_int_at(file, b.start_pos as int) as int)
    } else {
        None
    }
}

/// The file after `header` and `body` are written to the block `b`: the
/// length of `header` in the block's own header, then `header`, then `body`.
pub open spec fn written(file: Seq<u8>, b: PosView, header: Seq<u8>, body: Seq<u8>) -> Seq<u8> {
    let at = b.start_pos as int;
    write_range(
        write_range(
            write_range(file, at, encode_int(header.len() as u64)),
            at + BLOCK_HEADER_LENGTH,
            header,
        ),
        at + BLOCK_HEADER_LENGTH + header.len(),
        body,
    )
}

/// The ranges that writing a caller's header of `header_len` bytes and a body
/// of `body_len` bytes to the block `b` writes, in the order they are
/// written.
pub open spec fn written_ranges(b: PosView, header_len: nat, body_len: nat) -> Seq<(usize, usize)> {
    seq![
        (b.start_pos, BLOCK_HEADER_LENGTH),
        ((b.start_pos + BLOCK_HEADER_LENGTH) as usize, header_len as usize),
        ((b.start_pos + BLOCK_HEADER_LENGTH + header_len) as usize, body_len as usize),
    ]
}

impl Block {
    /// The block that the freed slot `pos` describes.
    pub(crate) fn from_delete_stack_pos(pos: Pos) -> (block: Block)
        ensures
            block@ == pos@,
    {
        Block { path: pos.path, start_pos: pos.start_pos, length: pos.length }
    }

    pub(crate) fn new(path: String, start_pos: usize, length: usize) -> (block: Block)
        ensures
            block@ == (PosView { path: path@, start_pos: start_pos, length: length }),
    {
        Block { path: path, start_pos: start_pos, length: length }
    }

    /// The data file that the block lies in.
    pub fn path(&self) -> (path: &String)
        ensures
            path@ == self@.path,
    {
        &self.path
    }

    /// The offset of the block's header in the data file.
    pub fn start_pos(&self) -> (start_pos: usize)
        ensures
            start_pos == self@.start_pos,
    {
        self.start_pos
    }

    /// The number of bytes that the block holds behind its header.
    pub fn length(&self) -> (length: usize)
        ensures
            length == self@.length,
    {
        self.length
    }

    /// Reads the block's header from `file`, at the offset where the block
    /// starts.
    ///
    /// Fails where the header does not lie inside the file in full, and where
    /// it gives a size that is no offset of this machine.
    pub fn get_block_header(&self, file: &Vec<u8>, block_header_length: &RecordLength) -> (r:
        Result<BlockHeader, Error>)
        ensures
            self@.start_pos + BLOCK_HEADER_LENGTH > file@.len() ==> r is Err
                && r->Err_0.is_deserde(),
            self@.start_pos + BLOCK_HEADER_LENGTH <= file@.len() && decode_int_at(
                file@,
                self@.start_pos as int,
            ) > usize::MAX ==> r is Err && r->Err_0.is_deserde(),
            self@.start_pos + BLOCK_HEADER_LENGTH <= file@.len() && decode_int_at(
                file@,
                self@.start_pos as int,
            ) <= usize::MAX ==> r is Ok && r->Ok_0.header_size == decode_int_at(
                file@,
                self@.start_pos as int,
            ),
    {
        let content = read_at(file, self.start_pos, block_header_length.get());
        proof {
            if self.start_pos + 8 <= file@.len() {
                assert(content@.subrange(0, 8) =~= file@.subrange(
                    self.start_pos as int,
                    self.start_pos + 8,
                ));
            }
        }
        let header_size: u64 = match from_slice(content.as_slice()) {
            Ok(h) => h,
            Err(err) => {
                return Err(err);
            },
        };
        if header_size > usize::MAX as u64 {
            return Err(Error::deserde("the header holds a size that this machine has not"));
        }
        Ok(BlockHeader::new(header_size as usize))
    }

    /// Whether the block lies inside `file` in full.
    pub fn inside(&self, file: &Vec<u8>) -> (r: bool)
        ensures
            r == block_inside(file@, self@),
    {
        file.len() >= BLOCK_HEADER_LENGTH && self.length <= file.len() - BLOCK_HEADER_LENGTH
            && self.start_pos <= file.len() - BLOCK_HEADER_LENGTH - self.length
    }

    /// Replaces the caller's header of the block by `header`, with no body
    /// behind it.
    ///
    /// Fails, and changes nothing, where the block does not lie inside the
    /// data file of `store` or `header` is longer than the block.
    pub fn update_header(&self, store: &mut Fixed, header: &Vec<u8>) -> (r: Result<(), Error>)
        ensures
            final(store).settings() == old(store).settings(),
            final(store).stack_image() == old(store).stack_image(),
            final(store).stack_writes() == Seq::<(usize, usize)>::empty(),
            final(store).image().len() == old(store).image().len(),
            old(store).sound() ==> final(store).sound(),
            !block_inside(old(store).image(), self@) ==> r is Err && r->Err_0.is_file_seek(),
            block_inside(old(store).image(), self@) && header@.len() > self@.length ==> r is Err
                && r->Err_0.is_limit(),
            r is Err ==> final(store).image() == old(store).image() && final(store).last_writes()
                == Seq::<(usize, usize)>::empty(),
            block_inside(old(store).image(), self@) && header@.len() <= self@.length ==> r is Ok
                && final(store).image() == written(
                old(store).image(),
                self@,
                header@,
                Seq::empty(),
            ) && final(store).last_writes() == written_ranges(self@, header@.len(), 0)
                && stored_header_size(final(store).image(), self@) == Some(header@.len() as int)
                && final(store).image().subrange(
                self@.start_pos + BLOCK_HEADER_LENGTH,
                self@.start_pos + BLOCK_HEADER_LENGTH + header@.len(),
            ) == header@,
    {
        let body: Vec<u8> = Vec::new();
        store.write_body(self, header, &body)
    }
}

/// A data file of blocks of one capacity, with the stack of its freed slots.
#[derive(Debug, Clone)]
pub struct Fixed {
    fixed_size: usize,
    delete_record: Delete,
    file: Vec<u8>,
    name: String,
    file_path: String,
    block_header_length: RecordLength,
    writes: Vec<(usize, usize)>,
}

/// Whether there is a freed slot to take: the stack file gives a top behind
/// its header, and the entry that ends there decodes.
pub open spec fn reuses(stack: Seq<u8>) -> bool {
    stored_top(stack) != Some(FILE_HEADER_LENGTH as int) && pop_fits(stack)
}

/// The freed slot on top of the stack.
pub open spec fn reused_slot(stack: Seq<u8>) -> PosView {
    top_entry(stack, stored_top(stack)->Some_0)->Some_0.0
}

/// Whether the next allocation makes a new block at the end of the data
/// file: the stack is empty, and the new block ends within the largest length
/// a file can have.
pub open spec fn grows(file: Seq<u8>, stack: Seq<u8>, fixed_size: usize) -> bool {
    stored_top(stack) == Some(FILE_HEADER_LENGTH as int) && file.len() + BLOCK_HEADER_LENGTH
        + fixed_size <= max_len()
}

/// The ranges that making a new block at the end of `file` writes: the block.
pub open spec fn grown_ranges(file: Seq<u8>, fixed_size: usize) -> Seq<(usize, usize)> {
    seq![(file.len() as usize, (BLOCK_HEADER_LENGTH + fixed_size) as usize)]
}

/// What is written to a block is read back from it: the block's own header
/// gives the length of the caller's header, the caller's header lies behind
/// it and the body behind that. The file keeps its length, and every byte
/// outside what was written stays as it was.
pub proof fn lemma_written_reads_back(file: Seq<u8>, b: PosView, header: Seq<u8>, body: Seq<u8>)
    requires
        block_inside(file, b),
        header.len() + body.len() <= b.length,
    ensures
        written(file, b, header, body).len() == file.len(),
        stored_header_size(written(file, b, header, body), b) == Some(header.len() as int),
        written(file, b, header, body).subrange(
            b.start_pos + BLOCK_HEADER_LENGTH,
            b.start_pos + BLOCK_HEADER_LENGTH + header.len(),
        ) == header,
        written(file, b, header, body).subrange(
            b.start_pos + BLOCK_HEADER_LENGTH + header.len(),
            b.start_pos + BLOCK_HEADER_LENGTH + header.len() + body.len(),
        ) == body,
        forall|i: int|
            0 <= i < file.len() && !(b.start_pos <= i < b.start_pos + BLOCK_HEADER_LENGTH
                + header.len() + body.len()) ==> written(file, b, header, body)[i] == file[i],
{
    let at = b.start_pos as int;
    let after = written(file, b, header, body);
    lemma_int_round_trip(header.len() as u64, Seq::empty());
    assert(after.len() == file.len());
    assert(after.subrange(at, at + 8) =~= encode_int(header.len() as u64));
    lemma_int_at(after, at, header.len() as u64);
    assert(after.subrange(at + 8, at + 8 + header.len()) =~= header);
    assert(after.subrange(at + 8 + header.len(), at + 8 + header.len() + body.len()) =~= body);
}

/// A block that was just freed is the block that the next allocation hands
/// out: after its descriptor is pushed, there is a freed slot to take, the
/// slot is that block, and taking it leaves the stack as it was before the
/// block was freed. An allocation that takes a freed slot leaves the data
/// file as it is.
pub proof fn lemma_freed_block_is_reused(stack: Seq<u8>, b: PosView)
    requires
        push_fits(stack, b),
    ensures
        reuses(pushed(stack, b)),
        reused_slot(pushed(stack, b)) == b,
        stored_top(popped(pushed(stack, b))) == stored_top(stack),
        stack_of(stack) is Some ==> stack_of(popped(pushed(stack, b))) == stack_of(stack),
{
    lemma_push(stack, b);
}

/// Whether every freed slot of `slots` is a block of the store whose data
/// file `file` lies at `file_path` and whose blocks hold `fixed_size` bytes.
pub open spec fn slots_sound(
    file: Seq<u8>,
    slots: Seq<PosView>,
    file_path: Seq<char>,
    fixed_size: usize,
) -> bool {
    forall|i: int| 0 <= i < slots.len() ==> own_block(file, #[trigger] slots[i], file_path, fixed_size)
}

impl Fixed {
    /// Whether the stack of freed slots is whole and every slot on it is a
    /// block of this store. A store opened on an empty stack file is sound,
    /// and no operation of a sound store makes it unsound.
    pub open spec fn sound(&self) -> bool {
        self.free_list() is Some && slots_sound(
            self.image(),
            self.free_list()->Some_0,
            self.file_path(),
            self.fixed_size(),
        )
    }

    /// The bytes of the data file.
    pub closed spec fn image(&self) -> Seq<u8> {
        self.file@
    }

    /// The bytes of the file that holds the freed slots.
    pub closed spec fn stack_image(&self) -> Seq<u8> {
        self.delete_record.image()
    }

    /// The ranges of the data file that the last operation wrote, each as
    /// its offset and its length, in the order they were written. Outside
    /// them the operation left the data file as it was.
    pub closed spec fn last_writes(&self) -> Seq<(usize, usize)> {
        self.writes@
    }

    /// The ranges of the file of freed slots that the last operation wrote.
    pub closed spec fn stack_writes(&self) -> Seq<(usize, usize)> {
        self.delete_record.last_writes()
    }

    /// The number of bytes that every block of the store holds behind its
    /// header.
    pub closed spec fn fixed_size(&self) -> usize {
        self.fixed_size
    }

    /// The path of the data file, by which its blocks name it.
    pub closed spec fn file_path(&self) -> Seq<char> {
        self.file_path@
    }

    /// The name of the data file inside its directory.
    pub closed spec fn name(&self) -> Seq<char> {
        self.name@
    }

    /// What the store was opened with and no operation changes: the capacity
    /// of its blocks, the path of its data file and the file's name.
    pub open spec fn settings(&self) -> (usize, Seq<char>, Seq<char>) {
        (self.fixed_size(), self.file_path(), self.name())
    }

    /// The freed slots, the oldest first; none where the stack file is
    /// damaged.
    pub open spec fn free_list(&self) -> Option<Seq<PosView>> {
        stack_of(self.stack_image())
    }

    /// Hands out a block: the slot freed last where there is one, else a new
    /// block of zeros at the end of the data file. Either way the block names
    /// the data file of this store, holds as many bytes as the store gives
    /// every block, and lies inside the data file.
    ///
    /// A freed slot is taken only where it is such a block; the data file
    /// then stays as it is. Fails, and changes nothing, where the stack file
    /// is damaged at its top, where the slot on top of it is no block of
    /// this store, or where a new block would end beyond the largest length a
    /// file can have.
    pub fn new_block(&mut self) -> (r: Result<Block, Error>)
        ensures
            final(self).settings() == old(self).settings(),
            r is Ok ==> own_block(
                final(self).image(),
                r->Ok_0@,
                old(self).file_path(),
                old(self).fixed_size(),
            ),
            reuses(old(self).stack_image()) && own_block(
                old(self).image(),
                reused_slot(old(self).stack_image()),
                old(self).file_path(),
                old(self).fixed_size(),
            ) ==> r is Ok && r->Ok_0@ == reused_slot(old(self).stack_image()) && final(self).image()
                == old(self).image() && final(self).stack_image() == popped(
                old(self).stack_image(),
            ) && final(self).last_writes() == Seq::<(usize, usize)>::empty() && final(self).stack_writes() == popped_ranges(),
            reuses(old(self).stack_image()) && !own_block(
                old(self).image(),
                reused_slot(old(self).stack_image()),
                old(self).file_path(),
                old(self).fixed_size(),
            ) ==> r is Err && r->Err_0.is_deserde(),
            grows(old(self).image(), old(self).stack_image(), old(self).fixed_size()) ==> r is Ok
                && r->Ok_0@ == (PosView {
                path: old(self).file_path(),
                start_pos: old(self).image().len() as usize,
                length: old(self).fixed_size(),
            }) && final(self).image() == old(self).image() + zeros(
                BLOCK_HEADER_LENGTH + old(self).fixed_size(),
            ) && final(self).stack_image() == old(self).stack_image() && final(self).last_writes()
                == grown_ranges(old(self).image(), old(self).fixed_size()) && final(self).stack_writes() == Seq::<(usize, usize)>::empty() && stored_header_size(
                final(self).image(),
                r->Ok_0@,
            ) == Some(0int),
            !reuses(old(self).stack_image()) && !grows(
                old(self).image(),
                old(self).stack_image(),
                old(self).fixed_size(),
            ) ==> r is Err,
            r is Err ==> final(self).image() == old(self).image() && final(self).stack_image()
                == old(self).stack_image() && final(self).last_writes() == Seq::<(usize, usize)>::empty() && final(self).stack_writes() == Seq::<(usize, usize)>::empty()
                && (r->Err_0.is_deserde() <==> stored_top(old(self).stack_image()) != Some(
                FILE_HEADER_LENGTH as int,
            )) && (r->Err_0.is_file_write() <==> stored_top(old(self).stack_image()) == Some(
                FILE_HEADER_LENGTH as int,
            )),
            old(self).free_list() is Some && old(self).free_list()->Some_0.len() > 0 ==> (r is Ok
                <==> own_block(
                old(self).image(),
                old(self).free_list()->Some_0.last(),
                old(self).file_path(),
                old(self).fixed_size(),
            )) && (r is Ok ==> r->Ok_0@ == old(self).free_list()->Some_0.last() && final(self).free_list() == Some(old(self).free_list()->Some_0.drop_last())),
            old(self).free_list() is Some && old(self).free_list()->Some_0.len() == 0 ==> (r is Ok
                <==> old(self).image().len() + BLOCK_HEADER_LENGTH + old(self).fixed_size()
                <= max_len()) && (r is Ok ==> r->Ok_0@.start_pos == old(self).image().len()),
            old(self).sound() ==> final(self).sound() && (old(self).free_list()->Some_0.len() > 0
                ==> r is Ok),
    {
        proof {
            lemma_pop(old(self).stack_image());
        }
        self.writes = Vec::new();
        self.delete_record.clear_writes();
        let top = match self.delete_record.read_top() {
            Ok(t) => t,
            Err(err) => {
                return Err(err);
            },
        };
        match top {
            Some((pos, start)) => {
                let block = Block::from_delete_stack_pos(pos);
                if !self.owns(&block) {
                    return Err(Error::deserde("the freed slot is no block of this store"));
                }
                if let Err(err) = self.delete_record.update_file_header(FileHeader::new(start)) {
                    return Err(err);
                }
                proof {
                    assert(self.delete_record.last_writes() =~= popped_ranges());
                }
                Ok(block)
            },
            None => {
                let file_size: usize = self.get_file_size();
                let block_header_length: usize = self.block_header_length.get();
                let limit: usize = max_length();
                if file_size > limit - block_header_length || self.fixed_size > limit
                    - block_header_length - file_size {
                    return Err(Error::file_write("the new block ends beyond what a file can hold"));
                }
                let fresh = new_u8_vec_with_size(block_header_length + self.fixed_size);
                if let Err(err) = write_at(&mut self.file, file_size, &fresh) {
                    return Err(err);
                }
                self.writes.push((file_size, fresh.len()));
                proof {
                    assert(self.file@ =~= old(self).file@ + fresh@);
                    assert(self.writes@ =~= grown_ranges(old(self).image(), self.fixed_size));
                    lemma_int_zero();
                    assert(self.file@.subrange(file_size as int, file_size + 8) =~= zeros(8));
                    lemma_int_at(self.file@, file_size as int, 0);
                }
                Ok(Block::new(self.file_path.clone(), file_size, self.fixed_size))
            },
        }
    }

    /// Whether `block` is a block of this store: it names the store's data
    /// file, holds as many bytes as the store gives every block, and lies
    /// inside the data file.
    pub fn owns(&self, block: &Block) -> (r: bool)
        ensures
            r == own_block(self.image(), block@, self.file_path(), self.fixed_size()),
    {
        block.path == self.file_path && block.length == self.fixed_size && block.inside(&self.file)
    }

    /// Takes `block` back: its descriptor goes on the stack of freed slots,
    /// and the next allocation hands it out again.
    ///
    /// Fails, and changes nothing, where `block` is no block of this store,
    /// where its descriptor cannot be encoded, where the stack file gives no
    /// top, or where the entry would end beyond the largest length a file can
    /// have.
    pub fn free_block(&mut self, block: Block) -> (r: Result<(), Error>)
        ensures
            final(self).settings() == old(self).settings(),
            final(self).image() == old(self).image(),
            final(self).last_writes() == Seq::<(usize, usize)>::empty(),
            !own_block(
                old(self).image(),
                block@,
                old(self).file_path(),
                old(self).fixed_size(),
            ) ==> r is Err && r->Err_0.is_file_seek(),
            own_block(old(self).image(), block@, old(self).file_path(), old(self).fixed_size())
                ==> {
                &&& !block@.representable() ==> r is Err && r->Err_0.is_serde()
                &&& block@.representable() && stored_top(old(self).stack_image()) is None ==> r is Err
                    && r->Err_0.is_deserde()
                &&& block@.representable() && stored_top(old(self).stack_image()) is Some
                    && !push_fits(old(self).stack_image(), block@) ==> r is Err
                    && r->Err_0.is_file_write()
                &&& push_fits(old(self).stack_image(), block@) ==> r is Ok && final(self).stack_image() == pushed(old(self).stack_image(), block@) && final(self).stack_writes() == pushed_ranges(old(self).stack_image(), block@) && reuses(
                    final(self).stack_image(),
                ) && reused_slot(final(self).stack_image()) == block@
            },
            r is Err ==> final(self).stack_image() == old(self).stack_image() && final(self).stack_writes() == Seq::<(usize, usize)>::empty(),
            r is Ok && old(self).free_list() is Some ==> final(self).free_list() == Some(
                old(self).free_list()->Some_0.push(block@),
            ),
            old(self).sound() ==> final(self).sound(),
    {
        self.writes = Vec::new();
        self.delete_record.clear_writes();
        if !self.owns(&block) {
            return Err(Error::file_seek("the block is no block of this store"));
        }
        let pos = Pos::new(block.path, block.start_pos, block.length);
        let r = self.delete_record.push(pos);
        proof {
            if push_fits(old(self).stack_image(), block@) {
                lemma_push(old(self).stack_image(), block@);
            }
        }
        r
    }

    /// Reads the header of `block`, at the offset where the block starts.
    ///
    /// Fails where the header does not lie inside the data file in full, and
    /// where it gives a size that is no offset of this machine.
    pub fn read_header(&self, block: &Block) -> (r: Result<BlockHeader, Error>)
        ensures
            block@.start_pos + BLOCK_HEADER_LENGTH > self.image().len() ==> r is Err
                && r->Err_0.is_deserde(),
            block@.start_pos + BLOCK_HEADER_LENGTH <= self.image().len() && decode_int_at(
                self.image(),
                block@.start_pos as int,
            ) > usize::MAX ==> r is Err && r->Err_0.is_deserde(),
            block@.start_pos + BLOCK_HEADER_LENGTH <= self.image().len() && decode_int_at(
                self.image(),
                block@.start_pos as int,
            ) <= usize::MAX ==> r is Ok && r->Ok_0.header_size == decode_int_at(
                self.image(),
                block@.start_pos as int,
            ),
    {
        block.get_block_header(&self.file, &self.block_header_length)
    }

    /// Writes `header` as the header of `block`, where the block's own
    /// header lies and not at the start of the file.
    ///
    /// Fails, and changes nothing, where the block does not lie inside the
    /// data file, or `header` gives more bytes than the block holds.
    pub fn write_header(&mut self, block: &Block, header: BlockHeader) -> (r: Result<(), Error>)
        ensures
            final(self).settings() == old(self).settings(),
            final(self).stack_image() == old(self).stack_image(),
            final(self).stack_writes() == Seq::<(usize, usize)>::empty(),
            final(self).image().len() == old(self).image().len(),
            old(self).sound() ==> final(self).sound(),
            !block_inside(old(self).image(), block@) ==> r is Err && r->Err_0.is_file_seek(),
            block_inside(old(self).image(), block@) && header.header_size > block@.length ==> r is Err
                && r->Err_0.is_limit(),
            r is Err ==> final(self).image() == old(self).image() && final(self).last_writes()
                == Seq::<(usize, usize)>::empty(),
            block_inside(old(self).image(), block@) && header.header_size <= block@.length ==> r is Ok
                && final(self).image() == write_range(
                old(self).image(),
                block@.start_pos as int,
                encode_int(header.header_size as u64),
            ) && final(self).last_writes() == seq![(block@.start_pos, BLOCK_HEADER_LENGTH)]
                && stored_header_size(final(self).image(), block@) == Some(
                header.header_size as int,
            ),
    {
        self.writes = Vec::new();
        self.delete_record.clear_writes();
        let size: usize = self.file.len();
        if !block.inside(&self.file) {
            return Err(Error::file_seek("the block does not lie inside the file"));
        }
        if header.header_size > block.length {
            return Err(Error::limit("the header is longer than the block"));
        }
        let header_vec = match header.to_vec() {
            Ok(v) => v,
            Err(err) => {
                return Err(err);
            },
        };
        if let Err(err) = write_at(&mut self.file, block.start_pos, &header_vec) {
            return Err(err);
        }
        self.writes.push((block.start_pos, header_vec.len()));
        proof {
            let at = block@.start_pos as int;
            assert(self.file@.subrange(at, at + 8) =~= encode_int(header.header_size as u64));
            lemma_int_at(self.file@, at, header.header_size as u64);
            assert(self.writes@ =~= seq![(block@.start_pos, BLOCK_HEADER_LENGTH)]);
        }
        Ok(())
    }

    /// Writes the caller's `header` and `body` to `block`: the length of
    /// `header` goes into the block's own header, `header` behind it, and
    /// `body` behind `header`.
    ///
    /// Fails, and changes nothing, where the block does not lie inside the
    /// data file, or `header` and `body` together are longer than the block.
    pub fn write_body(&mut self, block: &Block, header: &Vec<u8>, body: &Vec<u8>) -> (r: Result<
        (),
        Error,
    >)
        ensures
            final(self).settings() == old(self).settings(),
            final(self).stack_image() == old(self).stack_image(),
            final(self).stack_writes() == Seq::<(usize, usize)>::empty(),
            final(self).image().len() == old(self).image().len(),
            old(self).sound() ==> final(self).sound(),
            !block_inside(old(self).image(), block@) ==> r is Err && r->Err_0.is_file_seek(),
            block_inside(old(self).image(), block@) && header@.len() + body@.len()
                > block@.length ==> r is Err && r->Err_0.is_limit(),
            r is Err ==> final(self).image() == old(self).image() && final(self).last_writes()
                == Seq::<(usize, usize)>::empty(),
            block_inside(old(self).image(), block@) && header@.len() + body@.len()
                <= block@.length ==> r is Ok && final(self).image() == written(
                old(self).image(),
                block@,
                header@,
                body@,
            ) && final(self).last_writes() == written_ranges(block@, header@.len(), body@.len())
                && stored_header_size(final(self).image(), block@) == Some(header@.len() as int)
                && final(self).image().subrange(
                block@.start_pos + BLOCK_HEADER_LENGTH,
                block@.start_pos + BLOCK_HEADER_LENGTH + header@.len(),
            ) == header@ && final(self).image().subrange(
                block@.start_pos + BLOCK_HEADER_LENGTH + header@.len(),
                block@.start_pos + BLOCK_HEADER_LENGTH + header@.len() + body@.len(),
            ) == body@,
    {
        proof {
            if block_inside(old(self).image(), block@) && header@.len() + body@.len()
                <= block@.length {
                lemma_written_reads_back(old(self).image(), block@, header@, body@);
            }
        }
        self.writes = Vec::new();
        self.delete_record.clear_writes();
        let size: usize = self.file.len();
        let block_header_length: usize = self.block_header_length.get();
        if !block.inside(&self.file) {
            return Err(Error::file_seek("the block does not lie inside the file"));
        }
        if header.len() > block.length || body.len() > block.length - header.len() {
            return Err(Error::limit("header and body are longer than the block"));
        }
        let header_vec = match BlockHeader::new(header.len()).to_vec() {
            Ok(v) => v,
            Err(err) => {
                return Err(err);
            },
        };
        if let Err(err) = write_at(&mut self.file, block.start_pos, &header_vec) {
            return Err(err);
        }
        assert(self.file@.len() == size);
        if let Err(err) = write_at(&mut self.file, block.start_pos + block_header_length, header) {
            return Err(err);
        }
        assert(self.file@.len() == size);
        if let Err(err) = write_at(
            &mut self.file,
            block.start_pos + block_header_length + header.len(),
            body,
        ) {
            return Err(err);
        }
        self.writes.push((block.start_pos, header_vec.len()));
        self.writes.push((block.start_pos + block_header_length, header.len()));
        self.writes.push((block.start_pos + block_header_length + header.len(), body.len()));
        proof {
            assert(self.writes@ =~= written_ranges(block@, header@.len(), body@.len()));
        }
        Ok(())
    }

    /// Reads the caller's header of `block` and what follows it to the end
    /// of the block.
    ///
    /// Fails where the block does not lie inside the data file in full, and
    /// where its own header gives more bytes than the block holds.
    pub fn read_body(&self, block: &Block) -> (r: Result<(Vec<u8>, Vec<u8>), Error>)
        ensures
            stored_header_size(self.image(), block@) is None ==> r is Err && r->Err_0.is_deserde(),
            stored_header_size(self.image(), block@) is Some ==> r is Ok && r->Ok_0.0@
                == self.image().subrange(
                block@.start_pos + BLOCK_HEADER_LENGTH,
                block@.start_pos + BLOCK_HEADER_LENGTH + stored_header_size(
                    self.image(),
                    block@,
                )->Some_0,
            ) && r->Ok_0.1@ == self.image().subrange(
                block@.start_pos + BLOCK_HEADER_LENGTH + stored_header_size(
                    self.image(),
                    block@,
                )->Some_0,
                block@.start_pos + BLOCK_HEADER_LENGTH + block@.length,
            ),
    {
        let size: usize = self.file.len();
        let block_header_length: usize = self.block_header_length.get();
        let block_header = match block.get_block_header(&self.file, &self.block_header_length) {
            Ok(h) => h,
            Err(err) => {
                return Err(err);
            },
        };
        if !block.inside(&self.file) {
            return Err(Error::deserde("the block ends behind the end of the file"));
        }
        if block_header.header_size > block.length {
            return Err(Error::deserde("the header gives more bytes than the block holds"));
        }
        let at: usize = block.start_pos + block_header_length;
        let header = read_at(&self.file, at, block_header.header_size);
        let body = read_at(
            &self.file,
            at + block_header.header_size,
            block.length - block_header.header_size,
        );
        proof {
            let n = block_header.header_size as int;
            assert(header@ =~= self.file@.subrange(at as int, at + n));
            assert(body@ =~= self.file@.subrange(at + n, at + block.length));
        }
        Ok((header, body))
    }

    /// The length of the data file in bytes.
    pub fn get_file_size(&self) -> (size: usize)
        ensures
            size == self.image().len(),
    {
        self.file.len()
    }

    /// The bytes of the data file.
    pub fn file(&self) -> (file: &Vec<u8>)
        ensures
            file@ == self.image(),
    {
        &self.file
    }

    /// The ranges of the data file that the last operation wrote, in the
    /// order they were written.
    pub fn writes(&self) -> (writes: &Vec<(usize, usize)>)
        ensures
            writes@ == self.last_writes(),
    {
        &self.writes
    }

    /// The stack of freed slots.
    pub fn delete_record(&self) -> (delete_record: &Delete)
        ensures
            delete_record.image() == self.stack_image(),
            delete_record.last_writes() == self.stack_writes(),
    {
        &self.delete_record
    }

    /// The number of bytes that every block of the store holds behind its
    /// header.
    pub fn block_capacity(&self) -> (fixed_size: usize)
        ensures
            fixed_size == self.fixed_size(),
    {
        self.fixed_size
    }

    /// Opens the store whose data file is called `name`, lies at `file_path`
    /// and holds `file`, with the freed slots that `delete_file` holds. No
    /// block is made: the data file is taken as it is, and an empty
    /// `delete_file` becomes an empty stack.
    pub fn new(
        name: &str,
        fixed_size: usize,
        file_path: String,
        file: Vec<u8>,
        delete_file: Vec<u8>,
    ) -> (r: Result<Fixed, Error>)
        ensures
            r is Ok,
            r->Ok_0.image() == file@,
            r->Ok_0.settings() == (fixed_size, file_path@, name@),
            r->Ok_0.stack_image() == opened(delete_file@),
            r->Ok_0.last_writes() == Seq::<(usize, usize)>::empty(),
            r->Ok_0.stack_writes() == opened_ranges(delete_file@),
            delete_file@.len() == 0 ==> r->Ok_0.free_list() == Some(Seq::<PosView>::empty())
                && r->Ok_0.sound(),
    {
        let delete_record = match Delete::new(delete_file) {
            Ok(d) => d,
            Err(err) => {
                return Err(err);
            },
        };
        let block_header_length = match RecordLength::measure() {
            Ok(l) => l,
            Err(err) => {
                return Err(err);
            },
        };
        let fixed = Fixed {
            fixed_size: fixed_size,
            delete_record: delete_record,
            file: file,
            name: String::from_str(name),
            file_path: file_path,
            block_header_length: block_header_length,
            writes: Vec::new(),
        };
        Ok(fixed)
    }
}

} // verus!
