//! The file manager without the files: where a block lies in its file, how
//! many blocks a file holds, which block an append creates, which files are
//! scratch files, and which files are open. Opening, reading and writing the
//! files is left to the caller, who hands in what the file system reported.

use crate::block::BlockId;
use vstd::hash_map::StringHashMap;
use vstd::prelude::*;
use vstd::string::StrSliceExecFns;

verus! {

/// The prefix that marks a file as scratch state of an earlier run.
pub open spec fn temp_prefix() -> Seq<char> {
    seq!['t', 'e', 'm', 'p']
}

/// Whether a file name starts with the scratch prefix.
pub open spec fn has_temp_prefix(name: Seq<char>) -> bool {
    name.len() >= 4 && name.subrange(0, 4) == temp_prefix()
}

/// The byte offset at which block `number` starts in a file of blocks of
/// `block_size` bytes.
pub open spec fn offset_of(number: int, block_size: int) -> int {
    number * block_size
}

/// The number of whole blocks of `block_size` bytes in a file of `file_len`
/// bytes.
pub open spec fn blocks_in(file_len: int, block_size: int) -> int
    recommends
        block_size > 0,
{
    file_len / block_size
}

/// Whether the file `name` is scratch state, to be deleted when a manager
/// starts.
pub fn is_temp_file(name: &str) -> (temp: bool)
    ensures
        temp == has_temp_prefix(name@),
{
    if name.unicode_len() < 4 {
        return false;
    }
    let temp = name.get_char(0) == 't' && name.get_char(1) == 'e' && name.get_char(2) == 'm'
        && name.get_char(3) == 'p';
    proof {
        let head = name@.subrange(0, 4);
        if temp {
            assert(head =~= temp_prefix());
        } else {
            assert(head[0] == name@[0] && head[1] == name@[1] && head[2] == name@[2] && head[3]
                == name@[3]);
            assert(temp_prefix()[0] == 't' && temp_prefix()[1] == 'e' && temp_prefix()[2] == 'm'
                && temp_prefix()[3] == 'p');
        }
    }
    temp
}

/// Two different blocks of one file share no byte.
pub proof fn lemma_blocks_do_not_overlap(first: int, second: int, block_size: int)
    requires
        0 <= first < second,
        block_size >= 0,
    ensures
        offset_of(first, block_size) + block_size <= offset_of(second, block_size),
{
    assert(first * block_size + block_size == (first + 1) * block_size) by (nonlinear_arith);
    assert((first + 1) * block_size <= second * block_size) by (nonlinear_arith)
        requires
            first + 1 <= second,
            block_size >= 0,
    ;
}

/// The block that an append creates starts within one block of the end of
/// the file, at or before it, and a file that ends where this block ends
/// holds exactly one block more.
pub proof fn lemma_append_adds_one_block(file_len: int, block_size: int)
    requires
        0 <= file_len,
        0 < block_size,
    ensures
        ({
            let number = blocks_in(file_len, block_size);
            let start = offset_of(number, block_size);
            &&& 0 <= number
            &&& start <= file_len < start + block_size
            &&& blocks_in(start + block_size, block_size) == number + 1
        }),
{
    let number = file_len / block_size;
    vstd::arithmetic::div_mod::lemma_fundamental_div_mod(file_len, block_size);
    vstd::arithmetic::div_mod::lemma_mod_bound(file_len, block_size);
    vstd::arithmetic::div_mod::lemma_div_pos_is_pos(file_len, block_size);
    assert(number * block_size == block_size * number) by (nonlinear_arith);
    assert(number * block_size + block_size == (number + 1) * block_size) by (nonlinear_arith);
    vstd::arithmetic::div_mod::lemma_div_multiples_vanish(number + 1, block_size);
}

/// The state of a file manager apart from the files themselves: the block
/// size, whether the database is new, and the files that are open, each under
/// its name with the one handle `H` that all work on that file shares. Block
/// size and newness are fixed when the manager is made. A file is added when
/// it is first opened and stays, with that handle, from then on.
#[verifier::reject_recursive_types(H)]
pub struct FileManager<H> {
    block_size: usize,
    is_new: bool,
    open_files: StringHashMap<H>,
}

impl<H> FileManager<H> {
    /// The size of every block and page, in bytes.
    pub closed spec fn spec_block_size(&self) -> usize {
        self.block_size
    }

    /// Whether the database directory was missing when the manager started.
    pub closed spec fn spec_is_new(&self) -> bool {
        self.is_new
    }

    /// The open files: the handle of each, by file name.
    pub closed spec fn open_files(&self) -> Map<Seq<char>, H> {
        self.open_files@
    }

    /// A manager for blocks of `block_size` bytes with no file open yet;
    /// `is_new` says whether the database directory had to be created.
    pub fn new(is_new: bool, block_size: usize) -> (manager: FileManager<H>)
        ensures
            manager.block_size() == block_size,
            manager.is_new() == is_new,
            manager.open_files() == Map::<Seq<char>, H>::empty(),
    {
        FileManager { block_size, is_new, open_files: StringHashMap::new() }
    }

    /// The size of every block and page, in bytes.
    #[verifier::when_used_as_spec(spec_block_size)]
    pub fn block_size(&self) -> (size: usize)
        ensures
            size == self.spec_block_size(),
    {
        self.block_size
    }

    /// Whether the database directory was missing when the manager started,
    /// so that what is kept in it has to be set up afresh.
    #[verifier::when_used_as_spec(spec_is_new)]
    pub fn is_new(&self) -> (fresh: bool)
        ensures
            fresh == self.spec_is_new(),
    {
        self.is_new
    }

    /// The handle of `filename`, if that file is open.
    pub fn get_file(&self, filename: &str) -> (handle: Option<&H>)
        ensures
            match handle {
                Some(h) => self.open_files().contains_key(filename@) && *h
                    == self.open_files()[filename@],
                None => !self.open_files().contains_key(filename@),
            },
    {
        self.open_files.get(filename)
    }

    /// Records `handle` as the handle of `filename`, unless that file is open
    /// already: then it keeps the handle it has. Nothing else changes, so
    /// every file that was open stays open under its handle.
    pub fn add_file(&mut self, filename: &str, handle: H)
        ensures
            final(self).open_files() == if old(self).open_files().contains_key(filename@) {
                old(self).open_files()
            } else {
                old(self).open_files().insert(filename@, handle)
            },
            forall|name: Seq<char>| #[trigger]
                old(self).open_files().contains_key(name) ==> final(self).open_files().contains_key(
                    name,
                ) && final(self).open_files()[name] == old(self).open_files()[name],
            final(self).block_size() == old(self).block_size(),
            final(self).is_new() == old(self).is_new(),
    {
        if !self.open_files.contains_key(filename) {
            self.open_files.insert(filename.to_owned(), handle);
        }
    }

    /// The offset at which `block` starts in its file, for reading or writing
    /// it. There is none where the offset is beyond what a file position can
    /// hold.
    pub fn block_offset(&self, block: &BlockId) -> (offset: Option<u64>)
        ensures
            offset == if offset_of(block@.1, self.block_size() as int) <= u64::MAX {
                Some(offset_of(block@.1, self.block_size() as int) as u64)
            } else {
                None::<u64>
            },
    {
        let number: i32 = block.number();
        (number as u64).checked_mul(self.block_size as u64)
    }

    /// The number of blocks in a file of `file_len` bytes: the whole blocks,
    /// without what is left over. Where `usize` is narrower than the count,
    /// the count is cut to its width.
    pub fn length(&self, file_len: u64) -> (count: usize)
        requires
            self.block_size() > 0,
        ensures
            count == blocks_in(file_len as int, self.block_size() as int) as usize,
            blocks_in(file_len as int, self.block_size() as int) <= usize::MAX ==> count
                == blocks_in(file_len as int, self.block_size() as int),
    {
        let whole = file_len / (self.block_size as u64);
        #[verifier::truncate]
        (whole as usize)
    }

    /// The block that an append to `filename` creates, given the length of
    /// the file before it: its number is the number of blocks that the file
    /// holds. There is none once that number no longer fits a block number.
    pub fn append(&self, filename: &str, file_len: u64) -> (block: Option<BlockId>)
        requires
            self.block_size() > 0,
        ensures
            match block {
                Some(b) => b@ == (filename@, blocks_in(file_len as int, self.block_size() as int)),
                None => blocks_in(file_len as int, self.block_size() as int) > i32::MAX,
            },
    {
        let whole = file_len / (self.block_size as u64);
        if whole > i32::MAX as u64 {
            return None;
        }
        Some(BlockId::new(filename, whole as i32))
    }
}

} // verus!
