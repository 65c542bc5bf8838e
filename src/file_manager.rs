use crate::page::Page;
use vstd::prelude::*;

pub use crate::block_id::BlockId;

verus! {

/// Why a block transfer was refused.
#[derive(Debug, Clone, Copy, PartialEq, Eq, Structural)]
pub enum FileError {
    /// The file held fewer than one block's worth of bytes at the block's offset.
    ShortBlock,
    /// A byte offset, a file length or a block number does not fit its integer type.
    OutOfRange,
}

/// Where a new block goes: its identifier, and the file length that makes room for it.
#[derive(Debug, Clone, PartialEq, Eq)]
pub struct AppendPlan {
    /// The identifier of the new block.
    pub block: BlockId,
    /// The file's length once the new block is in it.
    pub new_len: u64,
}

/// The fixed configuration of the block files under one directory: where they
/// lie and how many bytes each block holds.
pub struct FileManager {
    db_directory: String,
    block_size: usize,
}

impl FileManager {
    /// The storage root.
    pub closed spec fn spec_directory(&self) -> Seq<char> {
        self.db_directory@
    }

    /// The number of bytes in every block.
    pub closed spec fn spec_block_size(&self) -> int {
        self.block_size as int
    }

    /// A manager of the files under `db_directory`, in blocks of `block_size` bytes.
    pub fn new(db_directory: &str, block_size: usize) -> (r: FileManager)
        requires
            block_size > 0,
        ensures
            r.spec_directory() == db_directory@,
            r.spec_block_size() == block_size,
    {
        FileManager { db_directory: db_directory.to_owned(), block_size }
    }

    /// The storage root.
    pub fn db_directory(&self) -> (r: &str)
        ensures
            r@ == self.spec_directory(),
    {
        self.db_directory.as_str()
    }

    /// The number of bytes in every block.
    pub fn block_size(&self) -> (r: usize)
        ensures
            r == self.spec_block_size(),
    {
        self.block_size
    }

    /// The byte offset at which `block` starts in its file: block size times
    /// block number, or `OutOfRange` when that does not fit in 64 bits.
    pub fn block_offset(&self, block: &BlockId) -> (r: Result<u64, FileError>)
        ensures
            self.spec_block_size() * block.number <= u64::MAX ==> r == Ok::<u64, FileError>(
                (self.spec_block_size() * block.number) as u64,
            ),
            self.spec_block_size() * block.number > u64::MAX ==> r == Err::<u64, FileError>(
                FileError::OutOfRange,
            ),
    {
        match (self.block_size as u64).checked_mul(block.number as u64) {
            Some(offset) => Ok(offset),
            None => Err(FileError::OutOfRange),
        }
    }

    /// Loads the bytes read from a block's place in its file into `page`.
    ///
    /// With exactly one block's worth of bytes the page's content becomes
    /// `data` and its cursor stands at the end; with fewer or more the read
    /// is refused as `ShortBlock` and the page is left as it was.
    pub fn load_block(&self, page: &mut Page, data: Vec<u8>) -> (r: Result<(), FileError>)
        ensures
            data@.len() == self.spec_block_size() ==> r is Ok && final(page).well_formed()
                && final(page).bytes() == data@ && final(page).cursor() == data@.len(),
            data@.len() != self.spec_block_size() ==> r == Err::<(), FileError>(
                FileError::ShortBlock,
            ) && *final(page) == *old(page),
    {
        if data.len() != self.block_size {
            return Err(FileError::ShortBlock);
        }
        page.replace_contents(data);
        Ok(())
    }

    /// Where `append` puts a new block of `filename`, whose length is now
    /// `file_len`: its number is the count of whole blocks in the file, and
    /// the file grows by one block. `OutOfRange` when that number does not
    /// fit in 32 bits or the new length in 64.
    pub fn plan_append(&self, filename: &str, file_len: u64) -> (r: Result<AppendPlan, FileError>)
        requires
            self.spec_block_size() > 0,
        ensures
            file_len as int / self.spec_block_size() <= u32::MAX && file_len as int + self.spec_block_size()
                <= u64::MAX ==> (r matches Ok(plan) && plan.block.filename@ == filename@
                && plan.block.number == file_len as int / self.spec_block_size() && plan.new_len
                == file_len as int + self.spec_block_size()),
            !(file_len as int / self.spec_block_size() <= u32::MAX && file_len as int + self.spec_block_size()
                <= u64::MAX) ==> r == Err::<AppendPlan, FileError>(FileError::OutOfRange),
    {
        let size = self.block_size as u64;
        let count = file_len / size;
        if count > u32::MAX as u64 {
            return Err(FileError::OutOfRange);
        }
        let new_len = match file_len.checked_add(size) {
            Some(n) => n,
            None => return Err(FileError::OutOfRange),
        };
        Ok(AppendPlan { block: BlockId::new(filename, count as u32), new_len })
    }
}

/// Appending to a file of `k` whole blocks gives block `k` and a file of
/// `k + 1` blocks: appends to a new, empty file number their blocks 0, 1, 2,
/// ... and each one grows the file by exactly one block.
pub proof fn lemma_append_numbers_blocks_in_order(block_size: int, k: int)
    requires
        block_size > 0,
        k >= 0,
    ensures
        (k * block_size) / block_size == k,
        k * block_size + block_size == (k + 1) * block_size,
{
    vstd::arithmetic::div_mod::lemma_div_by_multiple(k, block_size);
    vstd::arithmetic::mul::lemma_mul_is_distributive_add_other_way(block_size, k, 1);
}

} // verus!
