//! In-memory indexed-allocation file system.
//!
//! Every live file owns one index block and up to four data blocks of 128
//! bytes each; the contents of a file are its data blocks read in index order.
//! All tables have fixed capacity.
use vstd::prelude::*;
use vstd::string::StringSliceAdditionalSpecFns;
use super::fs_spec::{FileView, FsView, BlockView, view_wf, file_wf, block_wf, empty_view, find_file, name_matches, lemma_find_file, needed_blocks, count_free, count_live, first_free_block, lemma_first_free_block, lemma_first_free_some, free_list, lemma_free_list, alloc_blocks, lemma_alloc_blocks, first_unused_slot, lemma_first_unused_slot, spec_create, lemma_create_wf, spec_delete, lemma_delete_wf, spec_rename, lemma_rename_wf, spec_read, spec_save, lemma_save_wf, spec_edit, listing};

use super::fs_laws::{
    block_count_holds, law_block_count_initial, law_block_count_kept, law_save_has_room, law_create_has_room,
    law_edit_has_room,
};

verus! {

/// Maximum number of files the file system can hold at once.
pub const MAX_FILES: usize = 8;
/// Maximum length, in bytes, of a file name.
pub const MAX_NAME_LEN: usize = 32;
/// Number of bytes stored in one allocation block.
pub const BLOCK_SIZE: usize = 128;
/// Maximum number of data blocks that one file may own.
pub const MAX_DATA_BLOCKS_PER_FILE: usize = 4;
/// Maximum length, in bytes, of a file's contents.
pub const MAX_CONTENT_LEN: usize = 512;
/// Total number of blocks in the simulated disk.
pub const TOTAL_BLOCKS: usize = 40;
/// Sentinel used when a file/block reference slot is empty.
pub const INVALID_BLOCK: usize = usize::MAX;

/// Errors that a file system operation can return.
#[derive(Debug, Clone, Copy, PartialEq, Eq, Structural)]
pub enum FsError {
    /// The file table or the block pool is full.
    NoSpace,
    /// No file with the requested name exists.
    NotFound,
    /// A file with that name already exists.
    AlreadyExists,
    /// The file name is empty or longer than `MAX_NAME_LEN`.
    BadName,
    /// The contents would exceed `MAX_CONTENT_LEN`.
    ContentTooLong,
}

/// The message shown on screen for each error.
pub open spec fn error_message(e: FsError) -> Seq<char> {
    match e {
        FsError::NoSpace => "file system is full"@,
        FsError::NotFound => "file not found"@,
        FsError::AlreadyExists => "file already exists"@,
        FsError::BadName => "invalid file name"@,
        FsError::ContentTooLong => "content exceeds maximum size"@,
    }
}

impl FsError {
    /// A human-readable description, used when reporting results on screen.
    pub fn as_str(&self) -> (s: &'static str)
        ensures
            s@ == error_message(*self),
    {
        match self {
            FsError::NoSpace => "file system is full",
            FsError::NotFound => "file not found",
            FsError::AlreadyExists => "file already exists",
            FsError::BadName => "invalid file name",
            FsError::ContentTooLong => "content exceeds maximum size",
        }
    }
}

/// Role of a block in the file allocation table.
#[derive(Debug, Clone, Copy, PartialEq, Eq, Structural)]
pub enum BlockKind {
    Index,
    Data,
}

/// Read-only block information exposed to the shell when drawing the file
/// allocation table.
#[derive(Debug, Clone, Copy)]
pub struct BlockInfo<'a> {
    pub used: bool,
    pub kind: Option<BlockKind>,
    pub owner: Option<&'a str>,
}

/// Internal metadata for one simulated disk block.
#[derive(Clone, Copy)]
struct BlockEntry {
    used: bool,
    owner_file: usize,
    kind: BlockKind,
}

impl BlockEntry {
    /// The entry of a free block: unused, owned by no file slot, tagged as
    /// data.
    fn free() -> (e: BlockEntry)
        ensures
            e == (BlockEntry { used: false, owner_file: INVALID_BLOCK, kind: BlockKind::Data }),
            entry_view(e) is None,
    {
        BlockEntry { used: false, owner_file: INVALID_BLOCK, kind: BlockKind::Data }
    }
}

/// A single file: a name plus the block references used by indexed
/// allocation. Content bytes live in the block pool.
#[derive(Clone, Copy)]
struct File {
    /// Whether this table slot currently holds a live file.
    used: bool,
    name: [u8; MAX_NAME_LEN],
    name_len: usize,
    content_len: usize,
    index_block: usize,
    data_blocks: [usize; MAX_DATA_BLOCKS_PER_FILE],
    data_block_count: usize,
}

/// The contents of file `f`: its data blocks read in index order.
spec fn file_content(blocks: Seq<[u8; BLOCK_SIZE]>, f: File) -> Seq<u8> {
    Seq::new(
        f.content_len as nat,
        |k: int| blocks[f.data_blocks@[k / BLOCK_SIZE as int] as int]@[k % BLOCK_SIZE as int],
    )
}

/// The data blocks of file `f`, in content order.
spec fn data_list(f: File) -> Seq<int> {
    f.data_blocks@.subrange(0, f.data_block_count as int).map_values(|b: usize| b as int)
}

/// The allocation table as the model sees it.
spec fn entries_view(entries: Seq<BlockEntry>) -> Seq<BlockView> {
    entries.map_values(|e: BlockEntry| entry_view(e))
}

spec fn file_view(blocks: Seq<[u8; BLOCK_SIZE]>, f: File) -> Option<FileView> {
    if f.used {
        Some(
            FileView {
                name: f.name@.subrange(0, f.name_len as int),
                content: file_content(blocks, f),
                index_block: f.index_block as int,
                data_blocks: data_list(f),
            },
        )
    } else {
        None
    }
}

spec fn entry_view(e: BlockEntry) -> BlockView {
    if e.used {
        Some((e.owner_file as int, e.kind))
    } else {
        None
    }
}

/// Field bounds of a live file slot.
spec fn file_bounds(f: File) -> bool {
    f.used ==> {
        &&& f.name_len <= MAX_NAME_LEN
        &&& f.content_len <= MAX_CONTENT_LEN
        &&& f.data_block_count <= MAX_DATA_BLOCKS_PER_FILE
        &&& f.data_block_count == needed_blocks(f.content_len as int)
    }
}

/// A file's view depends only on the bytes of its own data blocks.
proof fn lemma_file_view_frame(b1: Seq<[u8; BLOCK_SIZE]>, b2: Seq<[u8; BLOCK_SIZE]>, f: File)
    requires
        file_bounds(f),
        f.used ==> forall|k: int|
            0 <= k < f.data_block_count ==> b1[#[trigger] f.data_blocks@[k] as int] == b2[f.data_blocks@[k] as int],
    ensures
        file_view(b1, f) == file_view(b2, f),
{
    if f.used {
        assert forall|k: int| 0 <= k < f.content_len implies #[trigger] file_content(b1, f)[k] == file_content(b2, f)[k] by {
            let len = f.content_len as int;
            let c = f.data_block_count as int;
            assert(k / 128 < c) by (nonlinear_arith)
                requires
                    0 <= k < len,
                    c == (len + 127) / 128,
            ;
            assert(0 <= k / 128) by (nonlinear_arith)
                requires
                    0 <= k,
            ;
            assert(b1[f.data_blocks@[k / 128] as int] == b2[f.data_blocks@[k / 128] as int]);
        }
        assert(file_content(b1, f) =~= file_content(b2, f));
    }
}

/// Files whose blocks are untouched keep their view when block bytes change
/// only in free blocks or in blocks of slot `skip`.
proof fn lemma_frame(files: Seq<File>, b1: Seq<[u8; BLOCK_SIZE]>, b2: Seq<[u8; BLOCK_SIZE]>, ev: Seq<BlockView>, skip: int)
    requires
        files.len() == MAX_FILES,
        b1.len() == TOTAL_BLOCKS,
        b2.len() == TOTAL_BLOCKS,
        forall|i: int| 0 <= i < MAX_FILES ==> file_bounds(#[trigger] files[i]),
        view_wf(FsView { files: files.map_values(|f: File| file_view(b1, f)), blocks: ev }),
        forall|x: int|
            0 <= x < TOTAL_BLOCKS && b1[x] != b2[x] ==> #[trigger] ev[x] is None || ev[x].unwrap().0 == skip,
    ensures
        forall|j: int| 0 <= j < MAX_FILES && j != skip ==> file_view(b2, #[trigger] files[j]) == file_view(b1, files[j]),
{
    let v = FsView { files: files.map_values(|f: File| file_view(b1, f)), blocks: ev };
    assert forall|j: int| 0 <= j < MAX_FILES && j != skip implies file_view(b2, #[trigger] files[j]) == file_view(b1, files[j]) by {
        let f = files[j];
        assert(file_bounds(f));
        if f.used {
            assert(v.files[j] is Some);
            let fv = v.files[j].unwrap();
            assert(file_wf(v, j, fv));
            assert forall|k: int| 0 <= k < f.data_block_count implies b1[#[trigger] f.data_blocks@[k] as int] == b2[f.data_blocks@[k] as int] by {
                assert(fv.data_blocks[k] == f.data_blocks@[k] as int);
                assert(ev[fv.data_blocks[k]] == Some((j, BlockKind::Data)));
            }
            lemma_file_view_frame(b1, b2, f);
        }
    }
}

/// Arithmetic facts about block counts.
proof fn lemma_needed(len: int)
    requires
        0 <= len <= MAX_CONTENT_LEN,
    ensures
        0 <= needed_blocks(len) <= MAX_DATA_BLOCKS_PER_FILE,
        needed_blocks(len) * 128 >= len,
        needed_blocks(len) > 0 ==> (needed_blocks(len) - 1) * 128 < len,
{
    let c = needed_blocks(len);
    assert(c == (len + 127) / 128);
    assert(0 <= c <= 4 && c * 128 >= len && (c > 0 ==> (c - 1) * 128 < len)) by (nonlinear_arith)
        requires
            c == (len + 127) / 128,
            0 <= len <= 512,
    ;
}

/// A byte position splits into its block number and its offset in the block.
proof fn lemma_split_pos(p: int, n: int, j: int)
    requires
        0 <= j < 128,
        0 <= n,
        p == n * 128 + j,
    ensures
        p / 128 == n,
        p % 128 == j,
{
    assert(p / 128 == n && p % 128 == j) by (nonlinear_arith)
        requires
            0 <= j < 128,
            0 <= n,
            p == n * 128 + j,
    ;
}

impl File {
    /// An empty, unused slot.
    fn empty() -> (f: File)
        ensures
            !f.used,
    {
        File {
            used: false,
            name: [0u8; MAX_NAME_LEN],
            name_len: 0,
            content_len: 0,
            index_block: INVALID_BLOCK,
            data_blocks: [INVALID_BLOCK; MAX_DATA_BLOCKS_PER_FILE],
            data_block_count: 0,
        }
    }

    /// Does this live file have the given name?
    fn matches(&self, name: &str) -> (b: bool)
        requires
            file_bounds(*self),
        ensures
            b == (self.used && self.name@.subrange(0, self.name_len as int) == name.spec_bytes()),
    {
        let bytes = name.as_bytes();
        if !self.used || self.name_len != bytes.len() {
            return false;
        }
        let mut j: usize = 0;
        while j < self.name_len
            invariant
                self.used,
                self.name_len <= MAX_NAME_LEN,
                bytes@ == name.spec_bytes(),
                bytes@.len() == self.name_len,
                j <= self.name_len,
                forall|m: int| 0 <= m < j ==> self.name@[m] == bytes@[m],
            decreases self.name_len - j,
        {
            if self.name[j] != bytes[j] {
                assert(self.name@.subrange(0, self.name_len as int)[j as int] != bytes@[j as int]);
                return false;
            }
            j += 1;
        }
        assert(self.name@.subrange(0, self.name_len as int) =~= bytes@);
        true
    }
}

/// The file system: a fixed table of file slots, a pool of blocks and the
/// allocation table describing each block.
pub struct FileSystem {
    files: Vec<File>,
    blocks: Vec<[u8; BLOCK_SIZE]>,
    block_entries: Vec<BlockEntry>,
}

impl View for FileSystem {
    type V = FsView;

    closed spec fn view(&self) -> FsView {
        FsView {
            files: self.files@.map_values(|f: File| file_view(self.blocks@, f)),
            blocks: entries_view(self.block_entries@),
        }
    }
}

impl FileSystem {
    /// The file system's internal tables are consistent.
    pub closed spec fn wf(&self) -> bool {
        &&& self.files@.len() == MAX_FILES
        &&& self.blocks@.len() == TOTAL_BLOCKS
        &&& self.block_entries@.len() == TOTAL_BLOCKS
        &&& forall|i: int| 0 <= i < MAX_FILES ==> file_bounds(#[trigger] self.files@[i])
        &&& view_wf(self@)
        &&& block_count_holds(self@)
    }

    /// A consistent file system has a well-formed view whose used blocks are
    /// exactly the blocks of its live files.
    pub proof fn lemma_view_wf(&self)
        requires
            self.wf(),
        ensures
            view_wf(self@),
            block_count_holds(self@),
    {
    }

    /// Create an empty file system.
    pub fn new() -> (fs: FileSystem)
        ensures
            fs.wf(),
            fs@ == empty_view(),
    {
        let mut files: Vec<File> = Vec::new();
        let mut i: usize = 0;
        while i < MAX_FILES
            invariant
                i <= MAX_FILES,
                files@.len() == i,
                forall|j: int| 0 <= j < i ==> !(#[trigger] files@[j]).used,
            decreases MAX_FILES - i,
        {
            files.push(File::empty());
            i += 1;
        }
        let mut blocks: Vec<[u8; BLOCK_SIZE]> = Vec::new();
        let mut entries: Vec<BlockEntry> = Vec::new();
        let mut b: usize = 0;
        while b < TOTAL_BLOCKS
            invariant
                b <= TOTAL_BLOCKS,
                blocks@.len() == b,
                entries@.len() == b,
                forall|j: int| 0 <= j < b ==> !(#[trigger] entries@[j]).used,
            decreases TOTAL_BLOCKS - b,
        {
            blocks.push([0u8; BLOCK_SIZE]);
            entries.push(BlockEntry::free());
            b += 1;
        }
        let fs = FileSystem { files, blocks, block_entries: entries };
        assert(fs@ =~= empty_view());
        proof {
            law_block_count_initial();
        }
        fs
    }

    /// Count currently free blocks in the simulated disk.
    fn free_block_count(&self) -> (n: usize)
        requires
            self.wf(),
        ensures
            n == count_free(self@.blocks),
            n <= TOTAL_BLOCKS,
    {
        let mut n: usize = 0;
        let mut b: usize = 0;
        while b < TOTAL_BLOCKS
            invariant
                self.wf(),
                b <= TOTAL_BLOCKS,
                n <= b,
                n == count_free(self@.blocks.take(b as int)),
            decreases TOTAL_BLOCKS - b,
        {
            assert(self@.blocks.take(b + 1).drop_last() =~= self@.blocks.take(b as int));
            assert(self@.blocks.take(b + 1).last() == entry_view(self.block_entries@[b as int]));
            if !self.block_entries[b].used {
                n += 1;
            }
            b += 1;
        }
        assert(self@.blocks.take(TOTAL_BLOCKS as int) =~= self@.blocks);
        n
    }

    /// Reserve the first free block for a file, tag it with its purpose and
    /// erase its contents.
    fn allocate_block(&mut self, file_idx: usize, kind: BlockKind) -> (r: Option<usize>)
        requires
            old(self).blocks@.len() == TOTAL_BLOCKS,
            old(self).block_entries@.len() == TOTAL_BLOCKS,
        ensures
            final(self).files@ == old(self).files@,
            match first_free_block(entries_view(old(self).block_entries@)) {
                None => r is None && *final(self) == *old(self),
                Some(b) => {
                    &&& 0 <= b < TOTAL_BLOCKS
                    &&& r == Some(b as usize)
                    &&& final(self).block_entries@ == old(self).block_entries@.update(
                        b,
                        BlockEntry { used: true, owner_file: file_idx, kind },
                    )
                    &&& final(self).blocks@ == old(self).blocks@.update(b, final(self).blocks@[b])
                    &&& forall|j: int| 0 <= j < BLOCK_SIZE ==> #[trigger] final(self).blocks@[b]@[j] == 0
                },
            },
    {
        proof {
            lemma_first_free_block(entries_view(self.block_entries@));
        }
        let mut b: usize = 0;
        while b < TOTAL_BLOCKS
            invariant
                b <= TOTAL_BLOCKS,
                *self == *old(self),
                self.block_entries@.len() == TOTAL_BLOCKS,
                self.blocks@.len() == TOTAL_BLOCKS,
                forall|j: int| 0 <= j < b ==> (#[trigger] self.block_entries@[j]).used,
            decreases TOTAL_BLOCKS - b,
        {
            if !self.block_entries[b].used {
                proof {
                    lemma_first_free_block(entries_view(self.block_entries@));
                    let ev = entries_view(self.block_entries@);
                    assert(ev[b as int] is None);
                    assert forall|j: int| 0 <= j < b implies #[trigger] ev[j] is Some by {
                        assert(self.block_entries@[j].used);
                    }
                }
                self.block_entries[b] = BlockEntry { used: true, owner_file: file_idx, kind };
                self.blocks[b] = [0u8; BLOCK_SIZE];
                return Some(b);
            }
            b += 1;
        }
        proof {
            let ev = entries_view(self.block_entries@);
            assert forall|j: int| 0 <= j < ev.len() implies #[trigger] ev[j] is Some by {
                assert(self.block_entries@[j].used);
            }
        }
        None
    }

    /// Release a block back to the free pool and erase its contents.
    fn free_block(&mut self, block_idx: usize)
        requires
            old(self).blocks@.len() == TOTAL_BLOCKS,
            old(self).block_entries@.len() == TOTAL_BLOCKS,
        ensures
            final(self).files@ == old(self).files@,
            block_idx >= TOTAL_BLOCKS ==> *final(self) == *old(self),
            block_idx < TOTAL_BLOCKS ==> {
                &&& final(self).block_entries@ == old(self).block_entries@.update(
                    block_idx as int,
                    final(self).block_entries@[block_idx as int],
                )
                &&& !final(self).block_entries@[block_idx as int].used
                &&& final(self).blocks@ == old(self).blocks@.update(
                    block_idx as int,
                    final(self).blocks@[block_idx as int],
                )
            },
    {
        if block_idx >= TOTAL_BLOCKS {
            return;
        }
        self.blocks[block_idx] = [0u8; BLOCK_SIZE];
        self.block_entries[block_idx] = BlockEntry::free();
    }

    /// Free all data blocks for one file while keeping its index block.
    fn free_data_blocks(&mut self, file_idx: usize)
        requires
            old(self).blocks@.len() == TOTAL_BLOCKS,
            old(self).block_entries@.len() == TOTAL_BLOCKS,
            old(self).files@.len() == MAX_FILES,
            file_idx < MAX_FILES,
            file_bounds(old(self).files@[file_idx as int]),
            old(self).files@[file_idx as int].used,
            forall|k: int|
                0 <= k < old(self).files@[file_idx as int].data_block_count
                    ==> #[trigger] old(self).files@[file_idx as int].data_blocks@[k] < TOTAL_BLOCKS,
        ensures
            final(self).blocks@.len() == TOTAL_BLOCKS,
            final(self).block_entries@.len() == TOTAL_BLOCKS,
            entries_view(final(self).block_entries@) == free_list(
                entries_view(old(self).block_entries@),
                data_list(old(self).files@[file_idx as int]),
            ),
            forall|x: int|
                0 <= x < TOTAL_BLOCKS && !data_list(old(self).files@[file_idx as int]).contains(x)
                    ==> #[trigger] final(self).blocks@[x] == old(self).blocks@[x],
            final(self).files@ == old(self).files@.update(
                file_idx as int,
                File {
                    data_blocks: final(self).files@[file_idx as int].data_blocks,
                    data_block_count: 0,
                    content_len: 0,
                    ..old(self).files@[file_idx as int]
                },
            ),
    {
        let file = self.files[file_idx];
        let data_blocks = file.data_blocks;
        let data_count = file.data_block_count;
        let ghost dl = data_list(file);
        let ghost ev0 = entries_view(self.block_entries@);
        let ghost b0 = self.blocks@;
        let mut k: usize = 0;
        while k < data_count
            invariant
                k <= data_count,
                data_count <= MAX_DATA_BLOCKS_PER_FILE,
                dl == data_list(file),
                data_count == file.data_block_count,
                data_blocks == file.data_blocks,
                forall|m: int| 0 <= m < data_count ==> #[trigger] data_blocks@[m] < TOTAL_BLOCKS,
                self.blocks@.len() == TOTAL_BLOCKS,
                self.block_entries@.len() == TOTAL_BLOCKS,
                self.files@ == old(self).files@,
                entries_view(self.block_entries@) == free_list(ev0, dl.take(k as int)),
                forall|x: int|
                    0 <= x < TOTAL_BLOCKS && !dl.take(k as int).contains(x) ==> #[trigger] self.blocks@[x] == b0[x],
            decreases data_count - k,
        {
            let block_idx = data_blocks[k];
            assert(dl.take(k + 1).drop_last() =~= dl.take(k as int));
            assert(dl.take(k + 1).last() == block_idx as int);
            if block_idx != INVALID_BLOCK {
                self.free_block(block_idx);
            }
            assert(entries_view(self.block_entries@) =~= free_list(ev0, dl.take(k + 1)));
            assert forall|x: int|
                0 <= x < TOTAL_BLOCKS && !dl.take(k + 1).contains(x) implies #[trigger] self.blocks@[x] == b0[x] by {
                if dl.take(k as int).contains(x) {
                    let m = choose|m: int| 0 <= m < k && dl.take(k as int)[m] == x;
                    assert(dl.take(k + 1)[m] == x);
                }
                assert(x != block_idx) by {
                    assert(dl.take(k + 1)[k as int] == block_idx);
                }
            }
            k += 1;
        }
        assert(dl.take(data_count as int) =~= dl);
        let mut f = self.files[file_idx];
        f.data_blocks = [INVALID_BLOCK; MAX_DATA_BLOCKS_PER_FILE];
        f.data_block_count = 0;
        f.content_len = 0;
        self.files[file_idx] = f;
    }

    /// CREATE: register a new, empty file.
    ///
    /// Fails if the name is invalid, a file with that name already exists, or
    /// the file table is full; the block pool always has room for a new file.
    pub fn create(&mut self, name: &str) -> (r: Result<(), FsError>)
        requires
            old(self).wf(),
        ensures
            final(self).wf(),
            (r, final(self)@) == spec_create(old(self)@, name.spec_bytes()),
            r == Err::<(), FsError>(FsError::NoSpace) ==> count_live(old(self)@.files) == MAX_FILES,
    {
        proof {
            law_block_count_kept(self@, name.spec_bytes(), name.spec_bytes());
            if spec_create(self@, name.spec_bytes()).0 == Err::<(), FsError>(FsError::NoSpace) {
                law_create_has_room(self@, name.spec_bytes());
            }
        }
        let bytes = name.as_bytes();
        let len = bytes.len();
        if len == 0 || len > MAX_NAME_LEN {
            return Err(FsError::BadName);
        }
        if self.find(name).is_some() {
            return Err(FsError::AlreadyExists);
        }
        let ghost v0 = self@;
        let ghost files0 = self.files@;
        let ghost blocks0 = self.blocks@;
        let ghost entries0 = self.block_entries@;
        let mut idx: usize = 0;
        while idx < MAX_FILES && self.files[idx].used
            invariant
                idx <= MAX_FILES,
                self.wf(),
                self@ == v0,
                self.files@ == files0,
                self.blocks@ == blocks0,
                self.block_entries@ == entries0,
                forall|j: int| 0 <= j < idx ==> (#[trigger] self.files@[j]).used,
            decreases MAX_FILES - idx,
        {
            idx += 1;
        }
        proof {
            lemma_first_unused_slot(v0.files);
        }
        if idx == MAX_FILES {
            proof {
                assert(v0.files[0] is Some ==> self.files@[0].used);
                if let Some(k) = first_unused_slot(v0.files) {
                    assert(self.files@[k].used);
                }
            }
            return Err(FsError::NoSpace);
        }
        proof {
            if let Some(k) = first_unused_slot(v0.files) {
                if k < idx {
                    assert(self.files@[k].used);
                }
                assert(v0.files[idx as int] is None);
            } else {
                assert(v0.files[idx as int] is None);
            }
            assert(first_unused_slot(v0.files) == Some(idx as int));
        }
        let index_block = match self.allocate_block(idx, BlockKind::Index) {
            Some(b) => b,
            None => {
                return Err(FsError::NoSpace);
            },
        };
        proof {
            assert(v0.blocks == entries_view(entries0));
            assert(first_free_block(entries_view(entries0)) is Some);
            assert(first_free_block(v0.blocks) == Some(index_block as int));
            assert(self.blocks@.len() == TOTAL_BLOCKS);
        }
        let mut file = self.files[idx];
        let mut j: usize = 0;
        while j < len
            invariant
                j <= len,
                len == bytes@.len(),
                len <= MAX_NAME_LEN,
                forall|m: int| 0 <= m < j ==> file.name@[m] == bytes@[m],
            decreases len - j,
        {
            file.name[j] = bytes[j];
            j += 1;
        }
        file.used = true;
        file.name_len = len;
        file.content_len = 0;
        file.index_block = index_block;
        file.data_blocks = [INVALID_BLOCK; MAX_DATA_BLOCKS_PER_FILE];
        file.data_block_count = 0;
        self.files[idx] = file;
        proof {
            let nb = name.spec_bytes();
            vstd::utf8::encode_utf8_valid_utf8(name@);
            lemma_create_wf(v0, nb);
            let w = spec_create(v0, nb).1;
            assert(file.name@.subrange(0, len as int) =~= nb);
            assert(data_list(file) =~= Seq::<int>::empty());
            assert(file_content(self.blocks@, file) =~= Seq::<u8>::empty());
            assert(needed_blocks(0) == 0);
            lemma_first_free_block(v0.blocks);
            assert forall|x: int| 0 <= x < TOTAL_BLOCKS && blocks0[x] != self.blocks@[x]
                implies #[trigger] v0.blocks[x] is None || v0.blocks[x].unwrap().0 == idx as int by {
                if x != index_block as int {
                    assert(self.blocks@[x] == blocks0[x]);
                }
            }
            lemma_frame(files0, blocks0, self.blocks@, v0.blocks, idx as int);
            assert(file.used);
            assert(file.name_len == len);
            assert(file.index_block == index_block);
            assert(file_view(self.blocks@, file).unwrap().name == nb);
            assert(file_view(self.blocks@, file).unwrap().content == Seq::<u8>::empty());
            assert(file_view(self.blocks@, file).unwrap().data_blocks == Seq::<int>::empty());
            assert(file_view(self.blocks@, file) == Some(FileView {
                name: nb,
                content: Seq::empty(),
                index_block: index_block as int,
                data_blocks: Seq::empty(),
            }));
            assert(self@.files =~= w.files) by {
                assert forall|k: int| 0 <= k < MAX_FILES implies #[trigger] self@.files[k] == w.files[k] by {
                    if k != idx {
                        assert(self.files@[k] == files0[k]);
                    }
                }
            }
            assert(self@.blocks =~= w.blocks);
            assert forall|i: int| 0 <= i < MAX_FILES implies file_bounds(#[trigger] self.files@[i]) by {
                if i != idx {
                    assert(self.files@[i] == files0[i]);
                }
            }
        }
        Ok(())
    }

    /// Concrete facts about a live file of a well-formed file system.
    proof fn lemma_live_file(&self, i: int)
        requires
            self.wf(),
            0 <= i < MAX_FILES,
            self.files@[i].used,
        ensures
            file_bounds(self.files@[i]),
            self@.files[i] == file_view(self.blocks@, self.files@[i]),
            file_wf(self@, i, self@.files[i].unwrap()),
            self.files@[i].index_block < TOTAL_BLOCKS,
            forall|k: int|
                0 <= k < self.files@[i].data_block_count ==> #[trigger] self.files@[i].data_blocks@[k]
                    < TOTAL_BLOCKS,
    {
        let f = self.files@[i];
        assert(file_bounds(f));
        let fv = self@.files[i].unwrap();
        assert(file_wf(self@, i, fv));
        assert forall|k: int| 0 <= k < f.data_block_count implies #[trigger] f.data_blocks@[k] < TOTAL_BLOCKS by {
            assert(fv.data_blocks[k] == f.data_blocks@[k] as int);
        }
    }

    /// DELETE: remove a file, release its index and data blocks and free its
    /// table slot.
    pub fn delete(&mut self, name: &str) -> (r: Result<(), FsError>)
        requires
            old(self).wf(),
        ensures
            final(self).wf(),
            (r, final(self)@) == spec_delete(old(self)@, name.spec_bytes()),
    {
        proof {
            law_block_count_kept(self@, name.spec_bytes(), name.spec_bytes());
        }
        let idx = match self.find(name) {
            Some(i) => i,
            None => {
                return Err(FsError::NotFound);
            },
        };
        let ghost v0 = self@;
        let ghost files0 = self.files@;
        let ghost blocks0 = self.blocks@;
        proof {
            lemma_find_file(v0.files, name.spec_bytes());
            self.lemma_live_file(idx as int);
        }
        let index_block = self.files[idx].index_block;
        self.free_data_blocks(idx);
        let ghost blocks1 = self.blocks@;
        if index_block != INVALID_BLOCK {
            self.free_block(index_block);
        }
        self.files[idx] = File::empty();
        proof {
            let nb = name.spec_bytes();
            lemma_delete_wf(v0, nb);
            let w = spec_delete(v0, nb).1;
            let f = files0[idx as int];
            let fv = v0.files[idx as int].unwrap();
            assert(fv.data_blocks == data_list(f));
            assert(fv.index_block == index_block as int);
            assert forall|x: int| 0 <= x < TOTAL_BLOCKS && blocks0[x] != self.blocks@[x]
                implies #[trigger] v0.blocks[x] is None || v0.blocks[x].unwrap().0 == idx as int by {
                if x != index_block as int {
                    assert(self.blocks@[x] == blocks1[x]);
                    if !data_list(f).contains(x) {
                        assert(blocks1[x] == blocks0[x]);
                    } else {
                        let k = choose|k: int| 0 <= k < data_list(f).len() && data_list(f)[k] == x;
                        assert(fv.data_blocks[k] == x);
                    }
                }
            }
            lemma_frame(files0, blocks0, self.blocks@, v0.blocks, idx as int);
            assert(self@.files =~= w.files) by {
                assert forall|k: int| 0 <= k < MAX_FILES implies #[trigger] self@.files[k] == w.files[k] by {
                    if k != idx {
                        assert(self.files@[k] == files0[k]);
                    }
                }
            }
            assert(self@.blocks =~= w.blocks);
            assert forall|i: int| 0 <= i < MAX_FILES implies file_bounds(#[trigger] self.files@[i]) by {
                if i != idx {
                    assert(self.files@[i] == files0[i]);
                }
            }
        }
        Ok(())
    }

    /// RENAME: change a file's name without altering its contents or blocks.
    pub fn rename(&mut self, old_name: &str, new_name: &str) -> (r: Result<(), FsError>)
        requires
            old(self).wf(),
        ensures
            final(self).wf(),
            (r, final(self)@) == spec_rename(old(self)@, old_name.spec_bytes(), new_name.spec_bytes()),
    {
        proof {
            law_block_count_kept(self@, old_name.spec_bytes(), new_name.spec_bytes());
        }
        let bytes = new_name.as_bytes();
        let len = bytes.len();
        if len == 0 || len > MAX_NAME_LEN {
            return Err(FsError::BadName);
        }
        if self.find(new_name).is_some() {
            return Err(FsError::AlreadyExists);
        }
        let idx = match self.find(old_name) {
            Some(i) => i,
            None => {
                return Err(FsError::NotFound);
            },
        };
        let ghost v0 = self@;
        let ghost files0 = self.files@;
        proof {
            lemma_find_file(v0.files, old_name.spec_bytes());
            self.lemma_live_file(idx as int);
        }
        let mut file = self.files[idx];
        let old_len = file.name_len;
        let mut name_buf = file.name;
        let mut j: usize = 0;
        while j < len
            invariant
                j <= len,
                len == bytes@.len(),
                len <= MAX_NAME_LEN,
                forall|m: int| 0 <= m < j ==> name_buf@[m] == bytes@[m],
            decreases len - j,
        {
            name_buf[j] = bytes[j];
            j += 1;
        }
        // Zero out leftover bytes only when the old name was longer.
        if len < old_len {
            let mut z: usize = len;
            while z < old_len
                invariant
                    len <= z <= old_len,
                    old_len <= MAX_NAME_LEN,
                    len == bytes@.len(),
                    forall|m: int| 0 <= m < len ==> name_buf@[m] == bytes@[m],
                decreases old_len - z,
            {
                name_buf[z] = 0;
                z += 1;
            }
        }
        let ghost file_before = files0[idx as int];
        file.name = name_buf;
        file.name_len = len;
        self.files[idx] = file;
        proof {
            let nb = new_name.spec_bytes();
            vstd::utf8::encode_utf8_valid_utf8(new_name@);
            lemma_rename_wf(v0, old_name.spec_bytes(), nb);
            let w = spec_rename(v0, old_name.spec_bytes(), nb).1;
            assert(file.name@.subrange(0, len as int) =~= nb);
            assert(file_content(self.blocks@, file) =~= file_content(self.blocks@, file_before));
            assert(data_list(file) =~= data_list(file_before));
            assert(self@.files =~= w.files) by {
                assert forall|k: int| 0 <= k < MAX_FILES implies #[trigger] self@.files[k] == w.files[k] by {
                    if k != idx {
                        assert(self.files@[k] == files0[k]);
                    }
                }
            }
            assert(self@.blocks =~= w.blocks);
            assert forall|i: int| 0 <= i < MAX_FILES implies file_bounds(#[trigger] self.files@[i]) by {
                if i != idx {
                    assert(self.files@[i] == files0[i]);
                }
            }
        }
        Ok(())
    }

    /// SAVE: replace the entire contents of an existing file.
    ///
    /// The old data blocks are released first, then one data block is
    /// allocated for every started 128 bytes of `data`. Fails if `data` is
    /// longer than 512 bytes or the file does not exist; the block pool always
    /// has room.
    pub fn save(&mut self, name: &str, data: &str) -> (r: Result<(), FsError>)
        requires
            old(self).wf(),
        ensures
            final(self).wf(),
            (r, final(self)@) == spec_save(old(self)@, name.spec_bytes(), data.spec_bytes()),
            r != Err::<(), FsError>(FsError::NoSpace),
    {
        proof {
            law_block_count_kept(self@, name.spec_bytes(), data.spec_bytes());
            lemma_find_file(self@.files, name.spec_bytes());
            if data.spec_bytes().len() <= MAX_CONTENT_LEN && find_file(self@.files, name.spec_bytes()) is Some {
                law_save_has_room(self@, name.spec_bytes(), data.spec_bytes());
            }
        }
        let bytes = data.as_bytes();
        let len = bytes.len();
        if len > MAX_CONTENT_LEN {
            return Err(FsError::ContentTooLong);
        }
        let idx = match self.find(name) {
            Some(i) => i,
            None => {
                return Err(FsError::NotFound);
            },
        };
        let ghost v0 = self@;
        let ghost files0 = self.files@;
        let ghost blocks0 = self.blocks@;
        proof {
            lemma_find_file(v0.files, name.spec_bytes());
            self.lemma_live_file(idx as int);
            lemma_needed(len as int);
        }
        let needed = (len + BLOCK_SIZE - 1) / BLOCK_SIZE;
        let reusable_blocks = self.files[idx].data_block_count;
        if self.free_block_count() + reusable_blocks < needed {
            proof {
                assert(data_list(files0[idx as int]).len() == reusable_blocks);
            }
            return Err(FsError::NoSpace);
        }
        let ghost f0 = files0[idx as int];
        let ghost fv0 = v0.files[idx as int].unwrap();
        proof {
            assert(fv0.data_blocks == data_list(f0));
            lemma_free_list(v0.blocks, fv0.data_blocks);
        }
        self.free_data_blocks(idx);
        let ghost freed = entries_view(self.block_entries@);
        let ghost files1 = self.files@;
        let ghost blocks1 = self.blocks@;
        proof {
            assert(freed == free_list(v0.blocks, fv0.data_blocks));
            assert(count_free(freed) >= needed);
            lemma_alloc_blocks(freed, idx as int, needed as nat);
        }
        let mut allocated_blocks = [INVALID_BLOCK; MAX_DATA_BLOCKS_PER_FILE];
        let mut block_no: usize = 0;
        while block_no < needed
            invariant
                block_no <= needed,
                needed <= MAX_DATA_BLOCKS_PER_FILE,
                needed as int == needed_blocks(len as int),
                needed * 128 >= len,
                len == bytes@.len(),
                len <= MAX_CONTENT_LEN,
                self.files@ == files1,
                blocks1.len() == TOTAL_BLOCKS,
                self.blocks@.len() == TOTAL_BLOCKS,
                self.block_entries@.len() == TOTAL_BLOCKS,
                count_free(freed) >= needed,
                alloc_blocks(freed, idx as int, block_no as nat) == (
                    entries_view(self.block_entries@),
                    allocated_blocks@.take(block_no as int).map_values(|b: usize| b as int),
                ),
                forall|n: int| 0 <= n < block_no ==> #[trigger] allocated_blocks@[n] < TOTAL_BLOCKS,
                forall|n: int, j: int|
                    0 <= n < block_no && 0 <= j < 128 && n * 128 + j < len ==> #[trigger] self.blocks@[allocated_blocks@[n] as int]@[j]
                        == bytes@[n * 128 + j],
                forall|x: int|
                    0 <= x < TOTAL_BLOCKS && !allocated_blocks@.take(block_no as int).map_values(|b: usize| b as int).contains(x)
                        ==> #[trigger] self.blocks@[x] == blocks1[x],
            decreases needed - block_no,
        {
            let ghost ev_before = entries_view(self.block_entries@);
            let ghost list_before = allocated_blocks@.take(block_no as int).map_values(|b: usize| b as int);
            proof {
                lemma_alloc_blocks(freed, idx as int, block_no as nat);
                lemma_first_free_some(ev_before);
            }
            let block_idx = match self.allocate_block(idx, BlockKind::Data) {
                Some(b) => b,
                None => {
                    return Err(FsError::NoSpace);
                },
            };
            let start = block_no * BLOCK_SIZE;
            let end = if start + BLOCK_SIZE < len { start + BLOCK_SIZE } else { len };
            let mut chunk = self.blocks[block_idx];
            let mut j: usize = 0;
            while j < end - start
                invariant
                    start as int == block_no * 128,
                    start <= end <= len,
                    end <= start + 128,
                    len == bytes@.len(),
                    j <= end - start,
                    forall|m: int| 0 <= m < j ==> #[trigger] chunk@[m] == bytes@[start + m],
                decreases end - start - j,
            {
                chunk[j] = bytes[start + j];
                j += 1;
            }
            self.blocks[block_idx] = chunk;
            allocated_blocks[block_no] = block_idx;
            proof {
                let list_after = allocated_blocks@.take(block_no + 1).map_values(|b: usize| b as int);
                assert(list_after =~= list_before.push(block_idx as int));
                assert(entries_view(self.block_entries@) =~= ev_before.update(
                    block_idx as int,
                    Some((idx as int, BlockKind::Data)),
                ));
                assert forall|n: int, jj: int|
                    0 <= n < block_no + 1 && 0 <= jj < 128 && n * 128 + jj < len implies #[trigger] self.blocks@[allocated_blocks@[n] as int]@[jj]
                        == bytes@[n * 128 + jj] by {
                    if n < block_no {
                        assert(allocated_blocks@[n] == list_before[n]);
                        assert(list_before.contains(list_before[n]));
                        assert(allocated_blocks@[n] != block_idx);
                    } else {
                        assert(jj < end - start);
                    }
                }
                assert forall|x: int|
                    0 <= x < TOTAL_BLOCKS && !list_after.contains(x) implies #[trigger] self.blocks@[x] == blocks1[x] by {
                    assert(x != block_idx) by {
                        assert(list_after[block_no as int] == block_idx);
                    }
                    if list_before.contains(x) {
                        let m = choose|m: int| 0 <= m < list_before.len() && list_before[m] == x;
                        assert(list_after[m] == x);
                    }
                }
            }
            block_no += 1;
        }
        let mut file = self.files[idx];
        file.data_blocks = allocated_blocks;
        file.data_block_count = needed;
        file.content_len = len;
        self.files[idx] = file;
        proof {
            let nb = name.spec_bytes();
            let db = data.spec_bytes();
            vstd::utf8::encode_utf8_valid_utf8(data@);
            lemma_save_wf(v0, nb, db);
            let w = spec_save(v0, nb, db).1;
            let list = allocated_blocks@.take(needed as int).map_values(|b: usize| b as int);
            assert(alloc_blocks(freed, idx as int, needed as nat).1 == list);
            assert(data_list(file) =~= list);
            assert(file_content(self.blocks@, file) =~= db) by {
                assert forall|p: int| 0 <= p < len implies #[trigger] file_content(self.blocks@, file)[p] == db[p] by {
                    let n = p / 128;
                    let jj = p % 128;
                    assert(p == n * 128 + jj && 0 <= jj < 128 && 0 <= n) by (nonlinear_arith)
                        requires
                            0 <= p,
                            n == p / 128,
                            jj == p % 128,
                    ;
                    assert(n < needed) by (nonlinear_arith)
                        requires
                            p == n * 128 + jj,
                            0 <= jj,
                            p < len,
                            needed * 128 >= len,
                            needed > 0 || len == 0,
                    ;
                }
            }
            assert(file_view(self.blocks@, file) == Some(FileView { content: db, data_blocks: list, ..fv0 }));
            assert forall|x: int| 0 <= x < TOTAL_BLOCKS && blocks0[x] != self.blocks@[x]
                implies #[trigger] v0.blocks[x] is None || v0.blocks[x].unwrap().0 == idx as int by {
                if list.contains(x) {
                    let m = choose|m: int| 0 <= m < list.len() && list[m] == x;
                    assert(freed[list[m]] is None);
                    if fv0.data_blocks.contains(x) {
                        let q = choose|q: int| 0 <= q < fv0.data_blocks.len() && fv0.data_blocks[q] == x;
                        assert(v0.blocks[fv0.data_blocks[q]] == Some((idx as int, BlockKind::Data)));
                    }
                } else {
                    assert(self.blocks@[x] == blocks1[x]);
                    if fv0.data_blocks.contains(x) {
                        let q = choose|q: int| 0 <= q < fv0.data_blocks.len() && fv0.data_blocks[q] == x;
                        assert(v0.blocks[fv0.data_blocks[q]] == Some((idx as int, BlockKind::Data)));
                    }
                }
            }
            lemma_frame(files0, blocks0, self.blocks@, v0.blocks, idx as int);
            assert(self@.files =~= w.files) by {
                assert forall|k: int| 0 <= k < MAX_FILES implies #[trigger] self@.files[k] == w.files[k] by {
                    if k != idx {
                        assert(self.files@[k] == files0[k]);
                    }
                }
            }
            assert(self@.blocks =~= w.blocks);
            assert forall|i: int| 0 <= i < MAX_FILES implies file_bounds(#[trigger] self.files@[i]) by {
                if i != idx {
                    assert(self.files@[i] == files0[i]);
                }
            }
        }
        Ok(())
    }

    /// EDIT: append text to the end of an existing file's contents.
    ///
    /// Fails if the file does not exist or the result would be too large; the
    /// block pool always has room for the longer contents.
    pub fn edit(&mut self, name: &str, extra: &str) -> (r: Result<(), FsError>)
        requires
            old(self).wf(),
        ensures
            final(self).wf(),
            (r, final(self)@) == spec_edit(old(self)@, name.spec_bytes(), extra.spec_bytes()),
            r != Err::<(), FsError>(FsError::NoSpace),
    {
        proof {
            law_edit_has_room(self@, name.spec_bytes(), extra.spec_bytes());
        }
        let mut content = [0u8; MAX_CONTENT_LEN];
        let len = match self.read_into(name, &mut content) {
            Ok(n) => n,
            Err(e) => {
                return Err(e);
            },
        };
        let extra_bytes = extra.as_bytes();
        let extra_len = extra_bytes.len();
        if extra_len > MAX_CONTENT_LEN - len {
            return Err(FsError::ContentTooLong);
        }
        let new_len = len + extra_len;
        let ghost old_content = content@.subrange(0, len as int);
        let mut j: usize = 0;
        while j < extra_len
            invariant
                j <= extra_len,
                extra_len == extra_bytes@.len(),
                len + extra_len <= MAX_CONTENT_LEN,
                new_len == len + extra_len,
                forall|m: int| 0 <= m < len ==> #[trigger] content@[m] == old_content[m],
                forall|m: int| 0 <= m < j ==> #[trigger] content@[len + m] == extra_bytes@[m],
            decreases extra_len - j,
        {
            content[len + j] = extra_bytes[j];
            j += 1;
        }
        let ghost c = spec_read(self@, name.spec_bytes()).unwrap();
        proof {
            assert forall|m: int| 0 <= m < new_len implies #[trigger] content@[m] == (c + extra.spec_bytes())[m] by {
                if m >= len {
                    assert(content@[len + (m - len)] == extra_bytes@[m - len]);
                }
            }
            lemma_find_file(self@.files, name.spec_bytes());
            let i = find_file(self@.files, name.spec_bytes()).unwrap();
            assert(file_wf(self@, i, self@.files[i].unwrap()));
            assert(old_content == c);
            vstd::utf8::encode_utf8_valid_utf8(extra@);
            vstd::utf8::valid_utf8_concat(c, extra.spec_bytes());
        }
        let new_bytes = vstd::slice::slice_subrange(content.as_slice(), 0, new_len);
        assert(new_bytes@ =~= c + extra.spec_bytes());
        let new_text = match crate::text::str_from_utf8(new_bytes) {
            Some(t) => t,
            None => "",
        };
        self.save(name, new_text)
    }

    /// Read back the contents of a file into a caller-provided buffer; the
    /// bytes after the contents are left as they were.
    pub fn read_into(&self, name: &str, out: &mut [u8; MAX_CONTENT_LEN]) -> (r: Result<usize, FsError>)
        requires
            self.wf(),
        ensures
            match spec_read(self@, name.spec_bytes()) {
                Err(e) => r == Err::<usize, FsError>(e) && final(out)@ == old(out)@,
                Ok(c) => c.len() <= MAX_CONTENT_LEN && r == Ok::<usize, FsError>(c.len() as usize) && final(out)@ == c + old(out)@.subrange(
                    c.len() as int,
                    MAX_CONTENT_LEN as int,
                ),
            },
    {
        let idx = match self.find(name) {
            Some(i) => i,
            None => {
                return Err(FsError::NotFound);
            },
        };
        proof {
            lemma_find_file(self@.files, name.spec_bytes());
            self.lemma_live_file(idx as int);
            lemma_needed(self.files@[idx as int].content_len as int);
        }
        let file = self.files[idx];
        let ghost content = file_content(self.blocks@, file);
        let len = file.content_len;
        let count = file.data_block_count;
        let mut copied: usize = 0;
        let mut k: usize = 0;
        while k < count
            invariant
                self.wf(),
                file == self.files@[idx as int],
                file.used,
                file_bounds(file),
                len == file.content_len,
                count == file.data_block_count,
                content == file_content(self.blocks@, file),
                count as int == needed_blocks(len as int),
                count * 128 >= len,
                count > 0 ==> (count - 1) * 128 < len,
                forall|m: int| 0 <= m < count ==> #[trigger] file.data_blocks@[m] < TOTAL_BLOCKS,
                k <= count,
                copied as int == if k * 128 <= len { k * 128 } else { len as int },
                forall|p: int| 0 <= p < copied ==> #[trigger] out@[p] == content[p],
                forall|p: int| copied <= p < MAX_CONTENT_LEN ==> #[trigger] out@[p] == old(out)@[p],
            decreases count - k,
        {
            assert(k * 128 < len) by {
                assert((k + 1) * 128 <= count * 128);
            }
            let remaining = len - copied;
            let chunk_len = if remaining < BLOCK_SIZE { remaining } else { BLOCK_SIZE };
            let block_idx = file.data_blocks[k];
            let mut j: usize = 0;
            while j < chunk_len
                invariant
                    self.wf(),
                    file == self.files@[idx as int],
                    len == file.content_len,
                    len <= MAX_CONTENT_LEN,
                    content == file_content(self.blocks@, file),
                    k < count,
                    block_idx == file.data_blocks@[k as int],
                    block_idx < TOTAL_BLOCKS,
                    copied as int == k * 128,
                    chunk_len <= 128,
                    copied + chunk_len <= len,
                    j <= chunk_len,
                    forall|p: int| 0 <= p < copied + j ==> #[trigger] out@[p] == content[p],
                    forall|p: int| copied + j <= p < MAX_CONTENT_LEN ==> #[trigger] out@[p] == old(out)@[p],
                decreases chunk_len - j,
            {
                proof {
                    lemma_split_pos(copied + j, k as int, j as int);
                }
                out[copied + j] = self.blocks[block_idx][j];
                j += 1;
            }
            copied += chunk_len;
            k += 1;
        }
        proof {
            let c = self@.files[idx as int].unwrap().content;
            assert(c == content);
            assert(copied == len);
            assert(out@ =~= c + old(out)@.subrange(c.len() as int, MAX_CONTENT_LEN as int));
        }
        Ok(len)
    }

    /// Every live file in slot order, as (name, content length) pairs. Used to
    /// list the directory.
    pub fn for_each_file<'a>(&'a self) -> (r: Vec<(&'a str, usize)>)
        requires
            self.wf(),
        ensures
            r@.len() == listing(self@.files).len(),
            forall|k: int|
                0 <= k < r@.len() ==> (#[trigger] r@[k]).0.spec_bytes() == listing(self@.files)[k].0
                    && r@[k].1 == listing(self@.files)[k].1,
    {
        let mut r: Vec<(&'a str, usize)> = Vec::new();
        let mut i: usize = 0;
        while i < MAX_FILES
            invariant
                self.wf(),
                i <= MAX_FILES,
                r@.len() == listing(self@.files.take(i as int)).len(),
                r@.len() <= i,
                forall|k: int|
                    0 <= k < r@.len() ==> (#[trigger] r@[k]).0.spec_bytes() == listing(self@.files.take(i as int))[k].0
                        && r@[k].1 == listing(self@.files.take(i as int))[k].1,
            decreases MAX_FILES - i,
        {
            let ghost prev = listing(self@.files.take(i as int));
            assert(self@.files.take(i + 1).drop_last() =~= self@.files.take(i as int));
            assert(self@.files.take(i + 1).last() == file_view(self.blocks@, self.files@[i as int]));
            let f = &self.files[i];
            if f.used {
                proof {
                    self.lemma_live_file(i as int);
                }
                let name_bytes = vstd::slice::slice_subrange(f.name.as_slice(), 0, f.name_len);
                let name = match crate::text::str_from_utf8(name_bytes) {
                    Some(s) => s,
                    None => "<?>",
                };
                r.push((name, f.content_len));
            }
            proof {
                let next = listing(self@.files.take(i + 1));
                assert forall|k: int| 0 <= k < r@.len() implies (#[trigger] r@[k]).0.spec_bytes() == next[k].0
                    && r@[k].1 == next[k].1 by {
                    if k < prev.len() {
                        assert(next[k] == prev[k]);
                    }
                }
            }
            i += 1;
        }
        assert(self@.files.take(MAX_FILES as int) =~= self@.files);
        r
    }

    /// One row of the file allocation table: whether the block is used, its
    /// role and the name of the file owning it.
    pub fn block_info(&self, block_idx: usize) -> (r: BlockInfo<'_>)
        requires
            self.wf(),
        ensures
            block_idx >= TOTAL_BLOCKS || self@.blocks[block_idx as int] is None ==> !r.used && r.kind is None
                && r.owner is None,
            block_idx < TOTAL_BLOCKS && self@.blocks[block_idx as int] is Some ==> {
                let (o, kind) = self@.blocks[block_idx as int].unwrap();
                &&& r.used
                &&& r.kind == Some(kind)
                &&& r.owner matches Some(s) && s.spec_bytes() == self@.files[o].unwrap().name
            },
    {
        if block_idx >= TOTAL_BLOCKS {
            return BlockInfo { used: false, kind: None, owner: None };
        }
        let entry = self.block_entries[block_idx];
        if !entry.used {
            return BlockInfo { used: false, kind: None, owner: None };
        }
        proof {
            assert(self@.blocks[block_idx as int] == entry_view(entry));
            assert(block_wf(self@, block_idx as int, self@.blocks[block_idx as int].unwrap()));
            self.lemma_live_file(entry.owner_file as int);
        }
        let file = &self.files[entry.owner_file];
        let name_bytes = vstd::slice::slice_subrange(file.name.as_slice(), 0, file.name_len);
        let owner = match crate::text::str_from_utf8(name_bytes) {
            Some(s) => s,
            None => "<?>",
        };
        BlockInfo { used: true, kind: Some(entry.kind), owner: Some(owner) }
    }

    /// Number of files currently stored.
    pub fn file_count(&self) -> (n: usize)
        requires
            self.wf(),
        ensures
            n == count_live(self@.files),
    {
        let mut n: usize = 0;
        let mut i: usize = 0;
        while i < MAX_FILES
            invariant
                self.wf(),
                i <= MAX_FILES,
                n <= i,
                n == count_live(self@.files.take(i as int)),
            decreases MAX_FILES - i,
        {
            assert(self@.files.take(i + 1).drop_last() =~= self@.files.take(i as int));
            assert(self@.files.take(i + 1).last() == file_view(self.blocks@, self.files@[i as int]));
            if self.files[i].used {
                n += 1;
            }
            i += 1;
        }
        assert(self@.files.take(MAX_FILES as int) =~= self@.files);
        n
    }

    /// Find the index of the live file with `name`, if any.
    fn find(&self, name: &str) -> (r: Option<usize>)
        requires
            self.wf(),
        ensures
            match find_file(self@.files, name.spec_bytes()) {
                Some(i) => r == Some(i as usize),
                None => r is None,
            },
    {
        proof {
            lemma_find_file(self@.files, name.spec_bytes());
        }
        let mut i: usize = 0;
        while i < MAX_FILES
            invariant
                self.wf(),
                i <= MAX_FILES,
                forall|j: int| 0 <= j < i ==> !name_matches(#[trigger] self@.files[j], name.spec_bytes()),
            decreases MAX_FILES - i,
        {
            let m = self.files[i].matches(name);
            assert(self@.files[i as int] == file_view(self.blocks@, self.files@[i as int]));
            if m {
                assert(name_matches(self@.files[i as int], name.spec_bytes()));
                proof {
                    lemma_find_file(self@.files, name.spec_bytes());
                }
                return Some(i);
            }
            i += 1;
        }
        None
    }
}

} // verus!
