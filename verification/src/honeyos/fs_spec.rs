//! Mathematical model of the indexed-allocation file system: its abstract
//! state, its well-formedness invariant and every operation as a function
//! from state to result and next state.
use vstd::prelude::*;
use vstd::utf8::valid_utf8;
use super::fs::{BlockKind, FsError, MAX_FILES, MAX_NAME_LEN, BLOCK_SIZE, MAX_CONTENT_LEN, TOTAL_BLOCKS};

verus! {

/// Abstract state of one live file.
#[verifier::ext_equal]
pub struct FileView {
    /// The file name, as bytes.
    pub name: Seq<u8>,
    /// The file contents, as bytes.
    pub content: Seq<u8>,
    /// The block holding the file's index.
    pub index_block: int,
    /// The file's data blocks, in content order.
    pub data_blocks: Seq<int>,
}

/// A block of the allocation table: `None` when free, otherwise the owning
/// file slot and the role of the block.
pub type BlockView = Option<(int, BlockKind)>;

/// Abstract state of the whole file system: the file table (one entry per
/// slot, `None` for a free slot) and the block allocation table.
#[verifier::ext_equal]
pub struct FsView {
    pub files: Seq<Option<FileView>>,
    pub blocks: Seq<BlockView>,
}

/// The first index in `i..n` at which `p` holds.
pub open spec fn first_index(p: spec_fn(int) -> bool, i: int, n: int) -> Option<int>
    decreases n - i,
{
    if i >= n {
        None
    } else if p(i) {
        Some(i)
    } else {
        first_index(p, i + 1, n)
    }
}

pub proof fn lemma_first_index(p: spec_fn(int) -> bool, i: int, n: int)
    ensures
        match first_index(p, i, n) {
            Some(k) => i <= k < n && p(k) && forall|j: int| i <= j < k ==> !#[trigger] p(j),
            None => forall|j: int| i <= j < n ==> !#[trigger] p(j),
        },
    decreases n - i,
{
    if i < n && !p(i) {
        lemma_first_index(p, i + 1, n);
    }
}

/// Does slot entry `f` hold a live file called `name`?
pub open spec fn name_matches(f: Option<FileView>, name: Seq<u8>) -> bool {
    match f {
        Some(fv) => fv.name == name,
        None => false,
    }
}

/// The slot of the live file called `name`, if any (the first such slot).
pub open spec fn find_file(files: Seq<Option<FileView>>, name: Seq<u8>) -> Option<int> {
    first_index(|i: int| name_matches(files[i], name), 0, files.len() as int)
}

/// The first free slot of the file table.
pub open spec fn first_unused_slot(files: Seq<Option<FileView>>) -> Option<int> {
    first_index(|i: int| files[i] is None, 0, files.len() as int)
}

/// The first free block of the allocation table.
pub open spec fn first_free_block(blocks: Seq<BlockView>) -> Option<int> {
    first_index(|b: int| blocks[b] is None, 0, blocks.len() as int)
}

/// Number of free blocks.
pub open spec fn count_free(blocks: Seq<BlockView>) -> nat
    decreases blocks.len(),
{
    if blocks.len() == 0 {
        0
    } else {
        count_free(blocks.drop_last()) + if blocks.last() is None { 1nat } else { 0nat }
    }
}

/// Number of live files.
pub open spec fn count_live(files: Seq<Option<FileView>>) -> nat
    decreases files.len(),
{
    if files.len() == 0 {
        0
    } else {
        count_live(files.drop_last()) + if files.last() is Some { 1nat } else { 0nat }
    }
}

/// Number of data blocks that `len` bytes of contents occupy.
pub open spec fn needed_blocks(len: int) -> int {
    (len + BLOCK_SIZE - 1) / BLOCK_SIZE as int
}

/// Release every block of `list`, in order.
pub open spec fn free_list(blocks: Seq<BlockView>, list: Seq<int>) -> Seq<BlockView>
    decreases list.len(),
{
    if list.len() == 0 {
        blocks
    } else {
        free_list(blocks, list.drop_last()).update(list.last(), None)
    }
}

/// Allocate `n` data blocks for file slot `owner`, each time taking the first
/// free block; returns the new table and the blocks in allocation order.
pub open spec fn alloc_blocks(blocks: Seq<BlockView>, owner: int, n: nat) -> (Seq<BlockView>, Seq<int>)
    decreases n,
{
    if n == 0 {
        (blocks, Seq::empty())
    } else {
        let (b1, l1) = alloc_blocks(blocks, owner, (n - 1) as nat);
        match first_free_block(b1) {
            Some(k) => (b1.update(k, Some((owner, BlockKind::Data))), l1.push(k)),
            None => (b1, l1),
        }
    }
}

pub proof fn lemma_count_free_update(s: Seq<BlockView>, i: int, x: BlockView)
    requires
        0 <= i < s.len(),
    ensures
        count_free(s.update(i, x)) + (if s[i] is None { 1int } else { 0int })
            == count_free(s) + (if x is None { 1int } else { 0int }),
    decreases s.len(),
{
    let t = s.update(i, x);
    if i == s.len() - 1 {
        assert(t.drop_last() =~= s.drop_last());
    } else {
        assert(t.drop_last() =~= s.drop_last().update(i, x));
        lemma_count_free_update(s.drop_last(), i, x);
    }
}

pub proof fn lemma_count_free_exists(s: Seq<BlockView>)
    requires
        count_free(s) > 0,
    ensures
        exists|i: int| 0 <= i < s.len() && s[i] is None,
    decreases s.len(),
{
    if s.last() is None {
        assert(s[s.len() - 1] is None);
    } else {
        lemma_count_free_exists(s.drop_last());
        let i = choose|i: int| 0 <= i < s.drop_last().len() && s.drop_last()[i] is None;
        assert(s[i] is None);
    }
}

pub proof fn lemma_count_free_bound(s: Seq<BlockView>)
    ensures
        count_free(s) <= s.len(),
    decreases s.len(),
{
    if s.len() > 0 {
        lemma_count_free_bound(s.drop_last());
    }
}

pub proof fn lemma_first_free_some(s: Seq<BlockView>)
    requires
        count_free(s) > 0,
    ensures
        first_free_block(s) matches Some(k) && 0 <= k < s.len() && s[k] is None,
{
    lemma_count_free_exists(s);
    let p = |b: int| s[b] is None;
    lemma_first_index(p, 0, s.len() as int);
    let i = choose|i: int| 0 <= i < s.len() && s[i] is None;
    assert(p(i));
}

pub proof fn lemma_free_list(blocks: Seq<BlockView>, list: Seq<int>)
    requires
        list.no_duplicates(),
        forall|k: int| 0 <= k < list.len() ==> 0 <= #[trigger] list[k] < blocks.len() && blocks[list[k]] is Some,
    ensures
        free_list(blocks, list).len() == blocks.len(),
        forall|x: int| 0 <= x < blocks.len() ==> #[trigger] free_list(blocks, list)[x] == if list.contains(x) { None } else { blocks[x] },
        count_free(free_list(blocks, list)) == count_free(blocks) + list.len(),
    decreases list.len(),
{
    if list.len() > 0 {
        let l1 = list.drop_last();
        assert forall|k: int| 0 <= k < l1.len() implies 0 <= #[trigger] l1[k] < blocks.len() && blocks[l1[k]] is Some by {
            assert(l1[k] == list[k]);
        }
        lemma_free_list(blocks, l1);
        let f1 = free_list(blocks, l1);
        let last = list.last();
        assert(!l1.contains(last)) by {
            if l1.contains(last) {
                let k = choose|k: int| 0 <= k < l1.len() && l1[k] == last;
                assert(list[k] == list[list.len() - 1]);
            }
        }
        assert(f1[last] is Some);
        lemma_count_free_update(f1, last, None);
        assert forall|x: int| 0 <= x < blocks.len() implies #[trigger] free_list(blocks, list)[x] == if list.contains(x) { None } else { blocks[x] } by {
            if x == last {
                assert(list[list.len() - 1] == x);
            } else {
                if list.contains(x) {
                    let k = choose|k: int| 0 <= k < list.len() && list[k] == x;
                    assert(l1[k] == x);
                }
                if l1.contains(x) {
                    let k = choose|k: int| 0 <= k < l1.len() && l1[k] == x;
                    assert(list[k] == x);
                }
            }
        }
    }
}

pub proof fn lemma_alloc_blocks(blocks: Seq<BlockView>, owner: int, n: nat)
    requires
        count_free(blocks) >= n,
    ensures
        ({
            let (nb, l) = alloc_blocks(blocks, owner, n);
            &&& nb.len() == blocks.len()
            &&& l.len() == n
            &&& l.no_duplicates()
            &&& forall|k: int| 0 <= k < l.len() ==> 0 <= #[trigger] l[k] < blocks.len() && blocks[l[k]] is None
                && nb[l[k]] == Some((owner, BlockKind::Data))
            &&& forall|x: int| 0 <= x < blocks.len() && !l.contains(x) ==> #[trigger] nb[x] == blocks[x]
            &&& count_free(nb) + n == count_free(blocks)
        }),
    decreases n,
{
    if n > 0 {
        lemma_alloc_blocks(blocks, owner, (n - 1) as nat);
        let (b1, l1) = alloc_blocks(blocks, owner, (n - 1) as nat);
        lemma_first_free_some(b1);
        let k = first_free_block(b1).unwrap();
        let (nb, l) = alloc_blocks(blocks, owner, n);
        assert(nb == b1.update(k, Some((owner, BlockKind::Data))));
        assert(l == l1.push(k));
        lemma_count_free_update(b1, k, Some((owner, BlockKind::Data)));
        assert(!l1.contains(k)) by {
            if l1.contains(k) {
                let j = choose|j: int| 0 <= j < l1.len() && l1[j] == k;
                assert(b1[l1[j]] == Some((owner, BlockKind::Data)));
            }
        }
        assert(blocks[k] is None) by {
            if !l1.contains(k) {
                assert(b1[k] == blocks[k]);
            }
        }
        assert forall|j: int| 0 <= j < l.len() implies 0 <= #[trigger] l[j] < blocks.len() && blocks[l[j]] is None
            && nb[l[j]] == Some((owner, BlockKind::Data)) by {
            if j < l1.len() {
                assert(l[j] == l1[j]);
            }
        }
        assert forall|x: int| 0 <= x < blocks.len() && !l.contains(x) implies #[trigger] nb[x] == blocks[x] by {
            assert(x != k) by {
                assert(l[l.len() - 1] == k);
            }
            if l1.contains(x) {
                let j = choose|j: int| 0 <= j < l1.len() && l1[j] == x;
                assert(l[j] == x);
            }
        }
        assert(l.no_duplicates()) by {
            assert forall|i: int, j: int| 0 <= i < l.len() && 0 <= j < l.len() && i != j implies l[i] != l[j] by {
                if i < l1.len() && j < l1.len() {
                    assert(l[i] == l1[i] && l[j] == l1[j]);
                } else if i < l1.len() {
                    assert(l[i] == l1[i]);
                    assert(l1.contains(l1[i]));
                } else if j < l1.len() {
                    assert(l[j] == l1[j]);
                    assert(l1.contains(l1[j]));
                }
            }
        }
    }
}

/// A block entry points back to a live file that lists it.
pub open spec fn block_wf(v: FsView, b: int, entry: (int, BlockKind)) -> bool {
    let (o, kind) = entry;
    &&& 0 <= o < v.files.len()
    &&& v.files[o] is Some
    &&& kind == BlockKind::Index ==> v.files[o].unwrap().index_block == b
    &&& kind == BlockKind::Data ==> v.files[o].unwrap().data_blocks.contains(b)
}

/// A live file in slot `i` is consistent with the allocation table.
pub open spec fn file_wf(v: FsView, i: int, f: FileView) -> bool {
    &&& 1 <= f.name.len() <= MAX_NAME_LEN
    &&& valid_utf8(f.name)
    &&& f.content.len() <= MAX_CONTENT_LEN
    &&& valid_utf8(f.content)
    &&& f.data_blocks.len() == needed_blocks(f.content.len() as int)
    &&& f.data_blocks.no_duplicates()
    &&& 0 <= f.index_block < v.blocks.len()
    &&& v.blocks[f.index_block] == Some((i, BlockKind::Index))
    &&& forall|k: int|
        0 <= k < f.data_blocks.len() ==> 0 <= #[trigger] f.data_blocks[k] < v.blocks.len()
            && v.blocks[f.data_blocks[k]] == Some((i, BlockKind::Data))
}

/// Well-formedness of the abstract state: fixed table sizes, every live file
/// owns exactly its index block and its data blocks, every used block belongs
/// to a live file that lists it, and names are unique.
pub open spec fn view_wf(v: FsView) -> bool {
    &&& v.files.len() == MAX_FILES
    &&& v.blocks.len() == TOTAL_BLOCKS
    &&& forall|i: int|
        0 <= i < v.files.len() && #[trigger] v.files[i] is Some ==> file_wf(v, i, v.files[i].unwrap())
    &&& forall|b: int|
        0 <= b < v.blocks.len() && #[trigger] v.blocks[b] is Some ==> block_wf(v, b, v.blocks[b].unwrap())
    &&& forall|i: int, j: int|
        #![trigger v.files[i], v.files[j]]
        0 <= i < v.files.len() && 0 <= j < v.files.len() && v.files[i] is Some && v.files[j] is Some
            && v.files[i].unwrap().name == v.files[j].unwrap().name ==> i == j
}

/// The empty file system.
pub open spec fn empty_view() -> FsView {
    FsView {
        files: Seq::new(MAX_FILES as nat, |i: int| None),
        blocks: Seq::new(TOTAL_BLOCKS as nat, |b: int| None),
    }
}

/// CREATE: register a new, empty file in the first free slot; its index block
/// is the first free block.
pub open spec fn spec_create(v: FsView, name: Seq<u8>) -> (Result<(), FsError>, FsView) {
    if name.len() == 0 || name.len() > MAX_NAME_LEN {
        (Err(FsError::BadName), v)
    } else if find_file(v.files, name) is Some {
        (Err(FsError::AlreadyExists), v)
    } else {
        match first_unused_slot(v.files) {
            None => (Err(FsError::NoSpace), v),
            Some(s) => match first_free_block(v.blocks) {
                None => (Err(FsError::NoSpace), v),
                Some(b) => (
                    Ok(()),
                    FsView {
                        files: v.files.update(
                            s,
                            Some(
                                FileView {
                                    name,
                                    content: Seq::empty(),
                                    index_block: b,
                                    data_blocks: Seq::empty(),
                                },
                            ),
                        ),
                        blocks: v.blocks.update(b, Some((s, BlockKind::Index))),
                    },
                ),
            },
        }
    }
}

/// SAVE: replace the contents of an existing file. Its old data blocks are
/// released first; then one first-fit data block is allocated per started
/// 128 bytes of `data`.
pub open spec fn spec_save(v: FsView, name: Seq<u8>, data: Seq<u8>) -> (Result<(), FsError>, FsView) {
    if data.len() > MAX_CONTENT_LEN {
        (Err(FsError::ContentTooLong), v)
    } else {
        match find_file(v.files, name) {
            None => (Err(FsError::NotFound), v),
            Some(i) => {
                let f = v.files[i].unwrap();
                let need = needed_blocks(data.len() as int);
                if count_free(v.blocks) + f.data_blocks.len() < need {
                    (Err(FsError::NoSpace), v)
                } else {
                    let (nb, list) = alloc_blocks(free_list(v.blocks, f.data_blocks), i, need as nat);
                    (
                        Ok(()),
                        FsView {
                            files: v.files.update(
                                i,
                                Some(FileView { content: data, data_blocks: list, ..f }),
                            ),
                            blocks: nb,
                        },
                    )
                }
            },
        }
    }
}

/// READ: the contents of the file called `name`.
pub open spec fn spec_read(v: FsView, name: Seq<u8>) -> Result<Seq<u8>, FsError> {
    match find_file(v.files, name) {
        None => Err(FsError::NotFound),
        Some(i) => Ok(v.files[i].unwrap().content),
    }
}

/// EDIT: append `extra` to the contents of an existing file, then save.
pub open spec fn spec_edit(v: FsView, name: Seq<u8>, extra: Seq<u8>) -> (Result<(), FsError>, FsView) {
    match spec_read(v, name) {
        Err(e) => (Err(e), v),
        Ok(content) => if content.len() + extra.len() > MAX_CONTENT_LEN {
            (Err(FsError::ContentTooLong), v)
        } else {
            spec_save(v, name, content + extra)
        },
    }
}

/// DELETE: release the file's data blocks, then its index block, and free its
/// slot.
pub open spec fn spec_delete(v: FsView, name: Seq<u8>) -> (Result<(), FsError>, FsView) {
    match find_file(v.files, name) {
        None => (Err(FsError::NotFound), v),
        Some(i) => {
            let f = v.files[i].unwrap();
            (
                Ok(()),
                FsView {
                    files: v.files.update(i, None),
                    blocks: free_list(v.blocks, f.data_blocks).update(f.index_block, None),
                },
            )
        },
    }
}

/// RENAME: change a file's name, keeping its contents and blocks.
pub open spec fn spec_rename(v: FsView, old_name: Seq<u8>, new_name: Seq<u8>) -> (Result<(), FsError>, FsView) {
    if new_name.len() == 0 || new_name.len() > MAX_NAME_LEN {
        (Err(FsError::BadName), v)
    } else if find_file(v.files, new_name) is Some {
        (Err(FsError::AlreadyExists), v)
    } else {
        match find_file(v.files, old_name) {
            None => (Err(FsError::NotFound), v),
            Some(i) => (
                Ok(()),
                FsView {
                    files: v.files.update(i, Some(FileView { name: new_name, ..v.files[i].unwrap() })),
                    blocks: v.blocks,
                },
            ),
        }
    }
}

/// The live files in slot order, as (name, content length) pairs.
pub open spec fn listing(files: Seq<Option<FileView>>) -> Seq<(Seq<u8>, nat)>
    decreases files.len(),
{
    if files.len() == 0 {
        Seq::empty()
    } else {
        listing(files.drop_last()) + match files.last() {
            Some(f) => seq![(f.name, f.content.len())],
            None => Seq::empty(),
        }
    }
}

pub proof fn lemma_find_file(files: Seq<Option<FileView>>, name: Seq<u8>)
    ensures
        match find_file(files, name) {
            Some(i) => 0 <= i < files.len() && name_matches(files[i], name) && forall|j: int|
                0 <= j < i ==> !name_matches(#[trigger] files[j], name),
            None => forall|j: int| 0 <= j < files.len() ==> !name_matches(#[trigger] files[j], name),
        },
{
    let p = |i: int| name_matches(files[i], name);
    lemma_first_index(p, 0, files.len() as int);
    match find_file(files, name) {
        Some(i) => {
            assert forall|j: int| 0 <= j < i implies !name_matches(#[trigger] files[j], name) by {
                assert(!p(j));
            }
        },
        None => {
            assert forall|j: int| 0 <= j < files.len() implies !name_matches(#[trigger] files[j], name) by {
                assert(!p(j));
            }
        },
    }
}

pub proof fn lemma_first_unused_slot(files: Seq<Option<FileView>>)
    ensures
        match first_unused_slot(files) {
            Some(i) => 0 <= i < files.len() && files[i] is None && forall|j: int|
                0 <= j < i ==> #[trigger] files[j] is Some,
            None => forall|j: int| 0 <= j < files.len() ==> #[trigger] files[j] is Some,
        },
{
    let p = |i: int| files[i] is None;
    lemma_first_index(p, 0, files.len() as int);
    match first_unused_slot(files) {
        Some(i) => {
            assert forall|j: int| 0 <= j < i implies #[trigger] files[j] is Some by {
                assert(!p(j));
            }
        },
        None => {
            assert forall|j: int| 0 <= j < files.len() implies #[trigger] files[j] is Some by {
                assert(!p(j));
            }
        },
    }
}

pub proof fn lemma_first_free_block(blocks: Seq<BlockView>)
    ensures
        match first_free_block(blocks) {
            Some(b) => 0 <= b < blocks.len() && blocks[b] is None && forall|j: int|
                0 <= j < b ==> #[trigger] blocks[j] is Some,
            None => forall|j: int| 0 <= j < blocks.len() ==> #[trigger] blocks[j] is Some,
        },
{
    let p = |b: int| blocks[b] is None;
    lemma_first_index(p, 0, blocks.len() as int);
    match first_free_block(blocks) {
        Some(b) => {
            assert forall|j: int| 0 <= j < b implies #[trigger] blocks[j] is Some by {
                assert(!p(j));
            }
        },
        None => {
            assert forall|j: int| 0 <= j < blocks.len() implies #[trigger] blocks[j] is Some by {
                assert(!p(j));
            }
        },
    }
}

/// The empty file system is well formed.
pub proof fn lemma_empty_wf()
    ensures
        view_wf(empty_view()),
{
}

/// CREATE keeps the state well formed.
pub proof fn lemma_create_wf(v: FsView, name: Seq<u8>)
    requires
        view_wf(v),
        valid_utf8(name),
    ensures
        view_wf(spec_create(v, name).1),
{
    lemma_find_file(v.files, name);
    lemma_first_unused_slot(v.files);
    lemma_first_free_block(v.blocks);
    let (r, w) = spec_create(v, name);
    if r is Ok {
        let s = first_unused_slot(v.files).unwrap();
        let b = first_free_block(v.blocks).unwrap();
        assert forall|i: int| 0 <= i < w.files.len() && #[trigger] w.files[i] is Some implies file_wf(w, i, w.files[i].unwrap()) by {
            if i != s {
                let f = v.files[i].unwrap();
                assert(file_wf(v, i, f));
                assert(f.index_block != b);
                assert forall|k: int| 0 <= k < f.data_blocks.len() implies 0 <= #[trigger] f.data_blocks[k] < w.blocks.len()
                    && w.blocks[f.data_blocks[k]] == Some((i, BlockKind::Data)) by {
                    assert(v.blocks[f.data_blocks[k]] is Some);
                }
            } else {
                assert(needed_blocks(0) == 0);
            }
        }
        assert forall|x: int| 0 <= x < w.blocks.len() && #[trigger] w.blocks[x] is Some implies block_wf(w, x, w.blocks[x].unwrap()) by {
            if x != b {
                assert(block_wf(v, x, v.blocks[x].unwrap()));
                let (o, k) = v.blocks[x].unwrap();
                assert(o != s);
            }
        }
        assert forall|i: int, j: int|
            #![trigger w.files[i], w.files[j]]
            0 <= i < w.files.len() && 0 <= j < w.files.len() && w.files[i] is Some && w.files[j] is Some
                && w.files[i].unwrap().name == w.files[j].unwrap().name implies i == j by {
            if i != s && j != s {
                assert(v.files[i] == w.files[i] && v.files[j] == w.files[j]);
            } else if i == s && j != s {
                assert(!name_matches(v.files[j], name));
            } else if i != s && j == s {
                assert(!name_matches(v.files[i], name));
            }
        }
    }
}

/// Facts about the blocks of a live file in a well-formed state.
pub proof fn lemma_file_blocks(v: FsView, i: int)
    requires
        view_wf(v),
        0 <= i < v.files.len(),
        v.files[i] is Some,
    ensures
        file_wf(v, i, v.files[i].unwrap()),
        !v.files[i].unwrap().data_blocks.contains(v.files[i].unwrap().index_block),
        forall|x: int| 0 <= x < v.blocks.len() && v.blocks[x] == Some((i, BlockKind::Data))
            ==> #[trigger] v.files[i].unwrap().data_blocks.contains(x),
        forall|x: int| 0 <= x < v.blocks.len() && #[trigger] v.blocks[x] == Some((i, BlockKind::Index))
            ==> x == v.files[i].unwrap().index_block,
        needed_blocks(v.files[i].unwrap().content.len() as int) <= 4,
{
    let f = v.files[i].unwrap();
    assert(file_wf(v, i, f));
    if f.data_blocks.contains(f.index_block) {
        let k = choose|k: int| 0 <= k < f.data_blocks.len() && f.data_blocks[k] == f.index_block;
        assert(v.blocks[f.data_blocks[k]] == Some((i, BlockKind::Data)));
    }
    assert forall|x: int| 0 <= x < v.blocks.len() && v.blocks[x] == Some((i, BlockKind::Data))
        implies #[trigger] f.data_blocks.contains(x) by {
        assert(block_wf(v, x, v.blocks[x].unwrap()));
    }
    assert forall|x: int| 0 <= x < v.blocks.len() && #[trigger] v.blocks[x] == Some((i, BlockKind::Index))
        implies x == f.index_block by {
        assert(block_wf(v, x, v.blocks[x].unwrap()));
    }
}

/// SAVE keeps the state well formed.
pub proof fn lemma_save_wf(v: FsView, name: Seq<u8>, data: Seq<u8>)
    requires
        view_wf(v),
        valid_utf8(data),
    ensures
        view_wf(spec_save(v, name, data).1),
{
    lemma_find_file(v.files, name);
    let (r, w) = spec_save(v, name, data);
    if r is Ok {
        let i = find_file(v.files, name).unwrap();
        let f = v.files[i].unwrap();
        let need = needed_blocks(data.len() as int);
        lemma_file_blocks(v, i);
        lemma_free_list(v.blocks, f.data_blocks);
        let freed = free_list(v.blocks, f.data_blocks);
        lemma_alloc_blocks(freed, i, need as nat);
        let (nb, l) = alloc_blocks(freed, i, need as nat);
        assert(w.blocks == nb);
        assert(w.files[i] == Some(FileView { content: data, data_blocks: l, ..f }));
        // Blocks that were used before and are not data blocks of `f` keep their entry.
        assert forall|x: int| 0 <= x < v.blocks.len() && v.blocks[x] is Some && !f.data_blocks.contains(x)
            implies #[trigger] nb[x] == v.blocks[x] by {
            assert(freed[x] == v.blocks[x]);
            if l.contains(x) {
                let k = choose|k: int| 0 <= k < l.len() && l[k] == x;
                assert(freed[l[k]] is None);
            }
        }
        assert forall|j: int| 0 <= j < w.files.len() && #[trigger] w.files[j] is Some implies file_wf(w, j, w.files[j].unwrap()) by {
            if j != i {
                let g = v.files[j].unwrap();
                assert(file_wf(v, j, g));
                assert(!f.data_blocks.contains(g.index_block)) by {
                    if f.data_blocks.contains(g.index_block) {
                        let k = choose|k: int| 0 <= k < f.data_blocks.len() && f.data_blocks[k] == g.index_block;
                        assert(v.blocks[f.data_blocks[k]] == Some((i, BlockKind::Data)));
                    }
                }
                assert forall|k: int| 0 <= k < g.data_blocks.len() implies 0 <= #[trigger] g.data_blocks[k] < w.blocks.len()
                    && w.blocks[g.data_blocks[k]] == Some((j, BlockKind::Data)) by {
                    let x = g.data_blocks[k];
                    assert(v.blocks[x] == Some((j, BlockKind::Data)));
                    if f.data_blocks.contains(x) {
                        let m = choose|m: int| 0 <= m < f.data_blocks.len() && f.data_blocks[m] == x;
                        assert(v.blocks[f.data_blocks[m]] == Some((i, BlockKind::Data)));
                    }
                }
            } else {
                assert(nb[f.index_block] == v.blocks[f.index_block]);
                assert(data.len() <= 512 ==> needed_blocks(data.len() as int) <= 4);
            }
        }
        assert forall|x: int| 0 <= x < w.blocks.len() && #[trigger] w.blocks[x] is Some implies block_wf(w, x, w.blocks[x].unwrap()) by {
            if l.contains(x) {
                let k = choose|k: int| 0 <= k < l.len() && l[k] == x;
                assert(nb[l[k]] == Some((i, BlockKind::Data)));
            } else {
                assert(nb[x] == freed[x]);
                assert(!f.data_blocks.contains(x));
                assert(freed[x] == v.blocks[x]);
                assert(block_wf(v, x, v.blocks[x].unwrap()));
            }
        }
        assert forall|a: int, b: int|
            #![trigger w.files[a], w.files[b]]
            0 <= a < w.files.len() && 0 <= b < w.files.len() && w.files[a] is Some && w.files[b] is Some
                && w.files[a].unwrap().name == w.files[b].unwrap().name implies a == b by {
            assert(v.files[a] is Some && v.files[b] is Some);
            assert(v.files[a].unwrap().name == w.files[a].unwrap().name);
            assert(v.files[b].unwrap().name == w.files[b].unwrap().name);
        }
    }
}

/// DELETE keeps the state well formed.
pub proof fn lemma_delete_wf(v: FsView, name: Seq<u8>)
    requires
        view_wf(v),
    ensures
        view_wf(spec_delete(v, name).1),
{
    lemma_find_file(v.files, name);
    let (r, w) = spec_delete(v, name);
    if r is Ok {
        let i = find_file(v.files, name).unwrap();
        let f = v.files[i].unwrap();
        lemma_file_blocks(v, i);
        lemma_free_list(v.blocks, f.data_blocks);
        let freed = free_list(v.blocks, f.data_blocks);
        assert forall|x: int| 0 <= x < w.blocks.len() && #[trigger] w.blocks[x] is Some implies
            x != f.index_block && !f.data_blocks.contains(x) && w.blocks[x] == v.blocks[x]
            && v.blocks[x].unwrap().0 != i by {
            assert(freed[x] == v.blocks[x]);
            assert(block_wf(v, x, v.blocks[x].unwrap()));
        }
        assert forall|j: int| 0 <= j < w.files.len() && #[trigger] w.files[j] is Some implies file_wf(w, j, w.files[j].unwrap()) by {
            let g = v.files[j].unwrap();
            assert(file_wf(v, j, g));
            assert(!f.data_blocks.contains(g.index_block)) by {
                if f.data_blocks.contains(g.index_block) {
                    let k = choose|k: int| 0 <= k < f.data_blocks.len() && f.data_blocks[k] == g.index_block;
                    assert(v.blocks[f.data_blocks[k]] == Some((i, BlockKind::Data)));
                }
            }
            assert forall|k: int| 0 <= k < g.data_blocks.len() implies 0 <= #[trigger] g.data_blocks[k] < w.blocks.len()
                && w.blocks[g.data_blocks[k]] == Some((j, BlockKind::Data)) by {
                let x = g.data_blocks[k];
                assert(v.blocks[x] == Some((j, BlockKind::Data)));
                if f.data_blocks.contains(x) {
                    let m = choose|m: int| 0 <= m < f.data_blocks.len() && f.data_blocks[m] == x;
                    assert(v.blocks[f.data_blocks[m]] == Some((i, BlockKind::Data)));
                }
            }
        }
        assert forall|x: int| 0 <= x < w.blocks.len() && #[trigger] w.blocks[x] is Some implies block_wf(w, x, w.blocks[x].unwrap()) by {
            assert(block_wf(v, x, v.blocks[x].unwrap()));
        }
        assert forall|a: int, b: int|
            #![trigger w.files[a], w.files[b]]
            0 <= a < w.files.len() && 0 <= b < w.files.len() && w.files[a] is Some && w.files[b] is Some
                && w.files[a].unwrap().name == w.files[b].unwrap().name implies a == b by {
            assert(v.files[a] == w.files[a] && v.files[b] == w.files[b]);
        }
    }
}

/// RENAME keeps the state well formed.
pub proof fn lemma_rename_wf(v: FsView, old_name: Seq<u8>, new_name: Seq<u8>)
    requires
        view_wf(v),
        valid_utf8(new_name),
    ensures
        view_wf(spec_rename(v, old_name, new_name).1),
{
    lemma_find_file(v.files, old_name);
    lemma_find_file(v.files, new_name);
    let (r, w) = spec_rename(v, old_name, new_name);
    if r is Ok {
        let i = find_file(v.files, old_name).unwrap();
        assert forall|j: int| 0 <= j < w.files.len() && #[trigger] w.files[j] is Some implies file_wf(w, j, w.files[j].unwrap()) by {
            assert(file_wf(v, j, v.files[j].unwrap()));
        }
        assert forall|x: int| 0 <= x < w.blocks.len() && #[trigger] w.blocks[x] is Some implies block_wf(w, x, w.blocks[x].unwrap()) by {
            assert(block_wf(v, x, v.blocks[x].unwrap()));
        }
        assert forall|a: int, b: int|
            #![trigger w.files[a], w.files[b]]
            0 <= a < w.files.len() && 0 <= b < w.files.len() && w.files[a] is Some && w.files[b] is Some
                && w.files[a].unwrap().name == w.files[b].unwrap().name implies a == b by {
            if a != i && b != i {
                assert(v.files[a] == w.files[a] && v.files[b] == w.files[b]);
            } else if a == i && b != i {
                assert(!name_matches(v.files[b], new_name));
            } else if a != i && b == i {
                assert(!name_matches(v.files[a], new_name));
            }
        }
    }
}

/// EDIT keeps the state well formed.
pub proof fn lemma_edit_wf(v: FsView, name: Seq<u8>, extra: Seq<u8>)
    requires
        view_wf(v),
        valid_utf8(extra),
    ensures
        view_wf(spec_edit(v, name, extra).1),
{
    lemma_find_file(v.files, name);
    if let Ok(content) = spec_read(v, name) {
        let i = find_file(v.files, name).unwrap();
        assert(file_wf(v, i, v.files[i].unwrap()));
        vstd::utf8::valid_utf8_concat(content, extra);
        lemma_save_wf(v, name, content + extra);
    }
}

/// The slot holding entry `k` of the listing.
pub open spec fn listing_slot(files: Seq<Option<FileView>>, k: int) -> int
    decreases files.len(),
{
    if files.len() == 0 {
        0
    } else if k < listing(files.drop_last()).len() {
        listing_slot(files.drop_last(), k)
    } else {
        files.len() - 1
    }
}

/// Entry `k` of the listing is the name and size of the live file in slot
/// `listing_slot(files, k)`, and later entries come from later slots.
pub proof fn lemma_listing_slot(files: Seq<Option<FileView>>)
    ensures
        forall|k: int|
            0 <= k < listing(files).len() ==> {
                let i = #[trigger] listing_slot(files, k);
                &&& 0 <= i < files.len()
                &&& files[i] is Some
                &&& listing(files)[k] == (files[i].unwrap().name, files[i].unwrap().content.len())
            },
        forall|k1: int, k2: int|
            0 <= k1 < k2 < listing(files).len() ==> #[trigger] listing_slot(files, k1) < #[trigger] listing_slot(
                files,
                k2,
            ),
    decreases files.len(),
{
    if files.len() > 0 {
        let d = files.drop_last();
        lemma_listing_slot(d);
        assert forall|k: int| 0 <= k < listing(d).len() implies #[trigger] listing(files)[k] == listing(d)[k] by {}
        assert forall|k: int|
            0 <= k < listing(files).len() implies {
                let i = #[trigger] listing_slot(files, k);
                &&& 0 <= i < files.len()
                &&& files[i] is Some
                &&& listing(files)[k] == (files[i].unwrap().name, files[i].unwrap().content.len())
            } by {
            if k < listing(d).len() {
                assert(listing(files)[k] == listing(d)[k]);
                assert(files[listing_slot(d, k)] == d[listing_slot(d, k)]);
            }
        }
        assert forall|k1: int, k2: int|
            0 <= k1 < k2 < listing(files).len() implies #[trigger] listing_slot(files, k1) < #[trigger] listing_slot(
                files,
                k2,
            ) by {
            if k2 < listing(d).len() {
                assert(listing_slot(d, k1) < listing_slot(d, k2));
            } else {
                assert(0 <= listing_slot(d, k1) < d.len());
            }
        }
    }
}

/// The live file in slot `i` is entry `count_live(files.take(i))` of the
/// listing.
pub proof fn lemma_listing_has_slot(files: Seq<Option<FileView>>, i: int)
    requires
        0 <= i < files.len(),
        files[i] is Some,
    ensures
        count_live(files.take(i)) < listing(files).len(),
        listing(files)[count_live(files.take(i)) as int] == (files[i].unwrap().name, files[i].unwrap().content.len()),
    decreases files.len(),
{
    let d = files.drop_last();
    lemma_listing_len(d);
    if i == files.len() - 1 {
        assert(files.take(i) =~= d);
        assert(files.last() == files[i]);
    } else {
        assert(files.take(i) =~= d.take(i));
        assert(d[i] == files[i]);
        lemma_listing_has_slot(d, i);
        let k = count_live(files.take(i)) as int;
        assert(listing(files)[k] == listing(d)[k]);
    }
}

/// The listing has one entry per live file.
pub proof fn lemma_listing_len(files: Seq<Option<FileView>>)
    ensures
        listing(files).len() == count_live(files),
    decreases files.len(),
{
    if files.len() > 0 {
        lemma_listing_len(files.drop_last());
    }
}

} // verus!
