//! A file as the sequence of bytes it holds, read and written at explicit
//! offsets.

use vstd::prelude::*;
use crate::Error;

verus! {

/// The largest number of bytes that a file, held as a vector, can have.
pub open spec fn max_len() -> int {
    isize::MAX as int
}

/// The largest number of bytes that a file, held as a vector, can have.
pub fn max_length() -> (n: usize)
    ensures
        n == max_len(),
{
    isize::MAX as usize
}

/// `n` zero bytes.
pub open spec fn zeros(n: int) -> Seq<u8> {
    Seq::new(n as nat, |i: int| 0u8)
}

/// What a read of up to `len` bytes at `offset` yields: the bytes that exist
/// in that range, so fewer than `len` at the end of the file and none beyond.
pub open spec fn read_range(file: Seq<u8>, offset: int, len: int) -> Seq<u8> {
    if offset >= file.len() || len <= 0 {
        Seq::empty()
    } else if offset + len >= file.len() {
        file.subrange(offset, file.len() as int)
    } else {
        file.subrange(offset, offset + len)
    }
}

/// The file after `data` is written at `offset`: bytes in the range are
/// replaced, the file grows where the range passes its end, and a gap between
/// the old end and `offset` reads as zeros. Writing nothing changes nothing.
pub open spec fn write_range(file: Seq<u8>, offset: int, data: Seq<u8>) -> Seq<u8> {
    if data.len() == 0 {
        file
    } else {
        Seq::new(
            if file.len() >= offset + data.len() { file.len() } else { (offset + data.len()) as nat },
            |i: int|
                if offset <= i < offset + data.len() {
                    data[i - offset]
                } else if i < file.len() {
                    file[i]
                } else {
                    0u8
                },
        )
    }
}

/// Whether `n` bytes can be written at `offset`: the write stays inside the
/// file, or it leaves the file no longer than a file can be.
pub open spec fn write_fits(file: Seq<u8>, offset: int, n: int) -> bool {
    offset + n <= max_len() || (offset + n <= file.len() && file.len() <= usize::MAX)
}

/// A vector of `size` zero bytes.
pub fn new_u8_vec_with_size(size: usize) -> (v: Vec<u8>)
    requires
        size <= max_len(),
    ensures
        v@ == zeros(size as int),
{
    let mut v: Vec<u8> = Vec::with_capacity(size);
    let mut i: usize = 0;
    while i < size
        invariant
            i <= size,
            v@ == zeros(i as int),
        decreases size - i,
    {
        v.push(0);
        i += 1;
        assert(v@ =~= zeros(i as int));
    }
    v
}

/// Reads up to `len` bytes at `offset`.
pub fn read_at(file: &Vec<u8>, offset: usize, len: usize) -> (r: Vec<u8>)
    ensures
        r@ == read_range(file@, offset as int, len as int),
{
    let mut r: Vec<u8> = Vec::new();
    if offset >= file.len() || len == 0 {
        return r;
    }
    let end: usize = if len >= file.len() - offset { file.len() } else { offset + len };
    let mut i: usize = offset;
    while i < end
        invariant
            offset <= i <= end <= file.len(),
            r@ == file@.subrange(offset as int, i as int),
        decreases end - i,
    {
        r.push(file[i]);
        i += 1;
        assert(r@ =~= file@.subrange(offset as int, i as int));
    }
    r
}

/// Writes `data` at `offset`. Fails, leaving the file as it was, exactly when
/// the write would make the file longer than a file can be.
pub fn write_at(file: &mut Vec<u8>, offset: usize, data: &Vec<u8>) -> (r: Result<(), Error>)
    ensures
        write_fits(old(file)@, offset as int, data@.len() as int) ==> r is Ok && final(file)@
            == write_range(old(file)@, offset as int, data@),
        !write_fits(old(file)@, offset as int, data@.len() as int) ==> r is Err
            && r->Err_0.is_file_write() && final(file)@ == old(file)@,
{
    let limit: usize = max_length();
    if data.len() > usize::MAX - offset {
        return Err(Error::file_write("the write ends beyond the largest offset"));
    }
    if offset + data.len() > file.len() && offset + data.len() > limit {
        return Err(Error::file_write("the write makes the file longer than a file can be"));
    }
    if data.len() == 0 {
        return Ok(());
    }
    let ghost before = file@;
    while file.len() < offset
        invariant
            file@.len() <= offset || file@ == before,
            file@.len() >= before.len(),
            forall|i: int| 0 <= i < before.len() ==> file@[i] == before[i],
            forall|i: int| before.len() <= i < file@.len() ==> file@[i] == 0u8,
        decreases offset - file.len(),
    {
        file.push(0);
    }
    let mut i: usize = 0;
    while i < data.len()
        invariant
            i <= data.len(),
            offset + data.len() <= usize::MAX,
            file@.len() >= offset,
            file@.len() >= before.len(),
            file@.len() >= offset + i,
            file@.len() == before.len() || file@.len() == offset + i || (i == 0 && file@.len()
                == offset),
            forall|j: int| offset <= j < offset + i ==> file@[j] == data@[j - offset],
            forall|j: int|
                0 <= j < file@.len() && !(offset <= j < offset + i) ==> file@[j] == (if j
                    < before.len() {
                    before[j]
                } else {
                    0u8
                }),
        decreases data.len() - i,
    {
        if offset + i < file.len() {
            file.set(offset + i, data[i]);
        } else {
            file.push(data[i]);
        }
        i += 1;
    }
    assert(file@ =~= write_range(before, offset as int, data@));
    Ok(())
}

} // verus!
