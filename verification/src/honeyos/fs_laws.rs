//! Laws of the indexed-allocation file system, stated over its model.
use vstd::prelude::*;
use super::fs::{BlockKind, FsError};
use super::fs_spec::{
    FsView, view_wf, file_wf, spec_create, spec_save, spec_read, spec_edit, spec_delete, spec_rename,
    find_file, lemma_find_file, name_matches, count_free, count_live, needed_blocks, free_list,
    lemma_free_list, alloc_blocks, lemma_alloc_blocks, lemma_file_blocks, lemma_count_free_update,
    first_unused_slot, lemma_first_unused_slot, first_free_block, lemma_first_free_block, listing,
    listing_slot, lemma_listing_slot, lemma_listing_len, lemma_listing_has_slot,
};
use super::fs::{MAX_NAME_LEN, TOTAL_BLOCKS, MAX_DATA_BLOCKS_PER_FILE, MAX_CONTENT_LEN, MAX_FILES};
use super::fs_spec::{FileView, BlockView, empty_view, block_wf, lemma_count_free_exists};

verus! {

/// After a successful save, reading the file gives back exactly the saved
/// bytes.
pub proof fn law_read_after_save(v: FsView, name: Seq<u8>, data: Seq<u8>)
    requires
        view_wf(v),
        spec_save(v, name, data).0 is Ok,
    ensures
        spec_read(spec_save(v, name, data).1, name) == Ok::<Seq<u8>, FsError>(data),
{
    let w = spec_save(v, name, data).1;
    lemma_find_file(v.files, name);
    lemma_find_file(w.files, name);
    let i = find_file(v.files, name).unwrap();
    match find_file(w.files, name) {
        Some(j) => {
            if j != i {
                assert(w.files[j] == v.files[j]);
            }
        },
        None => {
            assert(name_matches(w.files[i], name));
        },
    }
}

/// Reading `other` is unaffected by a change confined to slot `i` when that
/// slot does not hold a file called `other` before or after.
proof fn lemma_read_frame(v: FsView, w: FsView, i: int, other: Seq<u8>)
    requires
        v.files.len() == w.files.len(),
        0 <= i < v.files.len(),
        forall|j: int| 0 <= j < v.files.len() && j != i ==> #[trigger] w.files[j] == v.files[j],
        !name_matches(v.files[i], other),
        !name_matches(w.files[i], other),
    ensures
        spec_read(w, other) == spec_read(v, other),
{
    lemma_find_file(v.files, other);
    lemma_find_file(w.files, other);
    match find_file(v.files, other) {
        Some(k) => {
            assert(w.files[k] == v.files[k]);
            match find_file(w.files, other) {
                Some(m) => {
                    if m < k {
                        assert(w.files[m] == v.files[m]);
                    } else if m > k {
                        assert(!name_matches(w.files[k], other));
                    }
                },
                None => {
                    assert(name_matches(w.files[k], other));
                },
            }
        },
        None => {
            if let Some(m) = find_file(w.files, other) {
                assert(w.files[m] == v.files[m]);
            }
        },
    }
}

/// A save, an edit, a delete and a create of `name` leave the contents of
/// every file with another name as they were.
pub proof fn law_other_files_unchanged(v: FsView, name: Seq<u8>, data: Seq<u8>, other: Seq<u8>)
    requires
        view_wf(v),
        other != name,
    ensures
        spec_read(spec_save(v, name, data).1, other) == spec_read(v, other),
        spec_read(spec_edit(v, name, data).1, other) == spec_read(v, other),
        spec_read(spec_delete(v, name).1, other) == spec_read(v, other),
        spec_read(spec_create(v, name).1, other) == spec_read(v, other),
{
    lemma_find_file(v.files, name);
    lemma_first_unused_slot(v.files);
    if let Some(i) = find_file(v.files, name) {
        lemma_read_frame(v, spec_save(v, name, data).1, i, other);
        lemma_read_frame(v, spec_delete(v, name).1, i, other);
        if let Ok(c) = spec_read(v, name) {
            lemma_read_frame(v, spec_save(v, name, c + data).1, i, other);
        }
    }
    if spec_create(v, name).0 is Ok {
        let s = first_unused_slot(v.files).unwrap();
        lemma_read_frame(v, spec_create(v, name).1, s, other);
    }
}

/// After a successful edit, the file holds its old contents followed by the
/// appended bytes.
pub proof fn law_edit_appends(v: FsView, name: Seq<u8>, extra: Seq<u8>)
    requires
        view_wf(v),
        spec_edit(v, name, extra).0 is Ok,
    ensures
        spec_read(spec_edit(v, name, extra).1, name) == Ok::<Seq<u8>, FsError>(
            spec_read(v, name).unwrap() + extra,
        ),
{
    let c = spec_read(v, name).unwrap();
    law_read_after_save(v, name, c + extra);
}

/// A newly created file is empty, and the number of files grows by one.
pub proof fn law_create_empty(v: FsView, name: Seq<u8>)
    requires
        view_wf(v),
        spec_create(v, name).0 is Ok,
    ensures
        spec_read(spec_create(v, name).1, name) == Ok::<Seq<u8>, FsError>(Seq::empty()),
        count_live(spec_create(v, name).1.files) == count_live(v.files) + 1,
        count_free(spec_create(v, name).1.blocks) + 1 == count_free(v.blocks),
{
    let w = spec_create(v, name).1;
    lemma_find_file(v.files, name);
    lemma_find_file(w.files, name);
    lemma_first_unused_slot(v.files);
    lemma_first_free_block(v.blocks);
    let s = first_unused_slot(v.files).unwrap();
    let b = first_free_block(v.blocks).unwrap();
    match find_file(w.files, name) {
        Some(j) => {
            if j != s {
                assert(w.files[j] == v.files[j]);
            }
        },
        None => {
            assert(name_matches(w.files[s], name));
        },
    }
    lemma_count_live_update(v.files, s, w.files[s]);
    lemma_count_free_update(v.blocks, b, Some((s, BlockKind::Index)));
}

/// After a successful delete the file is gone, the number of files drops by
/// one, and its index block and all of its data blocks are free again.
pub proof fn law_delete_frees_blocks(v: FsView, name: Seq<u8>)
    requires
        view_wf(v),
        spec_delete(v, name).0 is Ok,
    ensures
        spec_read(spec_delete(v, name).1, name) == Err::<Seq<u8>, FsError>(FsError::NotFound),
        count_live(spec_delete(v, name).1.files) + 1 == count_live(v.files),
        count_free(spec_delete(v, name).1.blocks) == count_free(v.blocks) + 1 + needed_blocks(
            spec_read(v, name).unwrap().len() as int,
        ),
{
    let w = spec_delete(v, name).1;
    lemma_find_file(v.files, name);
    lemma_find_file(w.files, name);
    let i = find_file(v.files, name).unwrap();
    let f = v.files[i].unwrap();
    lemma_file_blocks(v, i);
    if let Some(j) = find_file(w.files, name) {
        assert(j != i);
        assert(w.files[j] == v.files[j]);
        assert(v.files[j].unwrap().name == v.files[i].unwrap().name);
    }
    lemma_count_live_update(v.files, i, None);
    lemma_free_list(v.blocks, f.data_blocks);
    let freed = free_list(v.blocks, f.data_blocks);
    assert(freed[f.index_block] == v.blocks[f.index_block]);
    lemma_count_free_update(freed, f.index_block, None);
}

/// Renaming keeps the contents and the blocks of the file: afterwards the new
/// name reads what the old name read, and the old name is gone.
pub proof fn law_rename_keeps_contents(v: FsView, old_name: Seq<u8>, new_name: Seq<u8>)
    requires
        view_wf(v),
        spec_rename(v, old_name, new_name).0 is Ok,
    ensures
        spec_read(spec_rename(v, old_name, new_name).1, new_name) == spec_read(v, old_name),
        spec_read(spec_rename(v, old_name, new_name).1, old_name) == Err::<Seq<u8>, FsError>(
            FsError::NotFound,
        ),
        spec_rename(v, old_name, new_name).1.blocks == v.blocks,
{
    let w = spec_rename(v, old_name, new_name).1;
    lemma_find_file(v.files, old_name);
    lemma_find_file(v.files, new_name);
    lemma_find_file(w.files, old_name);
    lemma_find_file(w.files, new_name);
    let i = find_file(v.files, old_name).unwrap();
    match find_file(w.files, new_name) {
        Some(j) => {
            if j != i {
                assert(w.files[j] == v.files[j]);
            }
        },
        None => {
            assert(name_matches(w.files[i], new_name));
        },
    }
    if let Some(j) = find_file(w.files, old_name) {
        if j != i {
            assert(w.files[j] == v.files[j]);
            assert(file_wf(v, i, v.files[i].unwrap()));
        }
    }
}

/// A failed operation leaves the file system exactly as it was.
pub proof fn law_failure_changes_nothing(v: FsView, name: Seq<u8>, other: Seq<u8>)
    ensures
        spec_create(v, name).0 is Err ==> spec_create(v, name).1 == v,
        spec_save(v, name, other).0 is Err ==> spec_save(v, name, other).1 == v,
        spec_edit(v, name, other).0 is Err ==> spec_edit(v, name, other).1 == v,
        spec_delete(v, name).0 is Err ==> spec_delete(v, name).1 == v,
        spec_rename(v, name, other).0 is Err ==> spec_rename(v, name, other).1 == v,
{
}

/// Saving uses exactly one data block per started 128 bytes: the pool loses
/// the new blocks and regains the file's previous ones.
pub proof fn law_save_block_accounting(v: FsView, name: Seq<u8>, data: Seq<u8>)
    requires
        view_wf(v),
        spec_save(v, name, data).0 is Ok,
    ensures
        count_free(spec_save(v, name, data).1.blocks) + needed_blocks(data.len() as int) == count_free(v.blocks)
            + needed_blocks(spec_read(v, name).unwrap().len() as int),
{
    lemma_find_file(v.files, name);
    let i = find_file(v.files, name).unwrap();
    let f = v.files[i].unwrap();
    lemma_file_blocks(v, i);
    lemma_free_list(v.blocks, f.data_blocks);
    let freed = free_list(v.blocks, f.data_blocks);
    lemma_alloc_blocks(freed, i, needed_blocks(data.len() as int) as nat);
}

/// Renaming a file and then renaming it back gives the file system exactly
/// as it was.
pub proof fn law_rename_back_restores(v: FsView, old_name: Seq<u8>, new_name: Seq<u8>)
    requires
        view_wf(v),
        spec_rename(v, old_name, new_name).0 is Ok,
    ensures
        spec_rename(spec_rename(v, old_name, new_name).1, new_name, old_name) == (Ok::<(), FsError>(()), v),
{
    let w = spec_rename(v, old_name, new_name).1;
    lemma_find_file(v.files, old_name);
    lemma_find_file(v.files, new_name);
    lemma_find_file(w.files, old_name);
    lemma_find_file(w.files, new_name);
    let i = find_file(v.files, old_name).unwrap();
    assert(file_wf(v, i, v.files[i].unwrap()));
    assert(old_name != new_name);
    match find_file(w.files, old_name) {
        Some(j) => {
            assert(j != i);
            assert(w.files[j] == v.files[j]);
        },
        None => {},
    }
    match find_file(w.files, new_name) {
        Some(j) => {
            if j != i {
                assert(w.files[j] == v.files[j]);
            }
            assert(j == i);
        },
        None => {
            assert(name_matches(w.files[i], new_name));
        },
    }
    let u = spec_rename(w, new_name, old_name).1;
    assert(u.files =~= v.files);
}

/// The directory listing has one entry per live file, in slot order; each
/// name has 1 to 32 bytes, no two entries share a name, and reading a listed
/// name gives contents of the listed size.
pub proof fn law_listing_matches_files(v: FsView)
    requires
        view_wf(v),
    ensures
        listing(v.files).len() == count_live(v.files),
        forall|k: int|
            0 <= k < listing(v.files).len() ==> {
                let (name, size) = #[trigger] listing(v.files)[k];
                &&& 1 <= name.len() <= MAX_NAME_LEN
                &&& spec_read(v, name) is Ok
                &&& spec_read(v, name).unwrap().len() == size
            },
        forall|k1: int, k2: int|
            0 <= k1 < listing(v.files).len() && 0 <= k2 < listing(v.files).len() && k1 != k2
                ==> #[trigger] listing(v.files)[k1].0 != #[trigger] listing(v.files)[k2].0,
{
    lemma_listing_len(v.files);
    lemma_listing_slot(v.files);
    assert forall|k: int| 0 <= k < listing(v.files).len() implies {
        let (name, size) = #[trigger] listing(v.files)[k];
        &&& 1 <= name.len() <= MAX_NAME_LEN
        &&& spec_read(v, name) is Ok
        &&& spec_read(v, name).unwrap().len() == size
    } by {
        let i = listing_slot(v.files, k);
        let name = listing(v.files)[k].0;
        assert(file_wf(v, i, v.files[i].unwrap()));
        lemma_find_file(v.files, name);
        assert(name_matches(v.files[i], name));
        let j = find_file(v.files, name).unwrap();
        assert(v.files[j] is Some && v.files[j].unwrap().name == v.files[i].unwrap().name);
    }
    assert forall|k1: int, k2: int|
        0 <= k1 < listing(v.files).len() && 0 <= k2 < listing(v.files).len() && k1 != k2
            implies #[trigger] listing(v.files)[k1].0 != #[trigger] listing(v.files)[k2].0 by {
        let i1 = listing_slot(v.files, k1);
        let i2 = listing_slot(v.files, k2);
        if k1 < k2 {
            assert(i1 < i2);
        } else {
            assert(i2 < i1);
        }
        assert(v.files[i1] is Some && v.files[i2] is Some);
    }
}

/// Blocks taken by one file slot: an index block and one data block per
/// started 128 bytes for a live file, none for an empty slot.
pub open spec fn slot_blocks(f: Option<FileView>) -> int {
    match f {
        Some(fv) => 1 + needed_blocks(fv.content.len() as int),
        None => 0,
    }
}

/// Blocks taken by all the file slots.
pub open spec fn blocks_in_use(files: Seq<Option<FileView>>) -> int
    decreases files.len(),
{
    if files.len() == 0 {
        0
    } else {
        blocks_in_use(files.drop_last()) + slot_blocks(files.last())
    }
}

/// The whole allocation table is accounted for: the used blocks are exactly
/// the blocks the live files take.
pub open spec fn block_count_holds(v: FsView) -> bool {
    count_free(v.blocks) + blocks_in_use(v.files) == TOTAL_BLOCKS
}

pub proof fn lemma_blocks_in_use_update(s: Seq<Option<FileView>>, i: int, x: Option<FileView>)
    requires
        0 <= i < s.len(),
    ensures
        blocks_in_use(s.update(i, x)) + slot_blocks(s[i]) == blocks_in_use(s) + slot_blocks(x),
    decreases s.len(),
{
    let t = s.update(i, x);
    if i == s.len() - 1 {
        assert(t.drop_last() =~= s.drop_last());
    } else {
        assert(t.drop_last() =~= s.drop_last().update(i, x));
        lemma_blocks_in_use_update(s.drop_last(), i, x);
    }
}

proof fn lemma_count_free_all_free(s: Seq<BlockView>)
    requires
        forall|b: int| 0 <= b < s.len() ==> #[trigger] s[b] is None,
    ensures
        count_free(s) == s.len(),
    decreases s.len(),
{
    if s.len() > 0 {
        lemma_count_free_all_free(s.drop_last());
    }
}

proof fn lemma_blocks_in_use_empty(s: Seq<Option<FileView>>)
    requires
        forall|i: int| 0 <= i < s.len() ==> #[trigger] s[i] is None,
    ensures
        blocks_in_use(s) == 0,
    decreases s.len(),
{
    if s.len() > 0 {
        lemma_blocks_in_use_empty(s.drop_last());
    }
}

/// The empty file system uses no block.
pub proof fn law_block_count_initial()
    ensures
        block_count_holds(empty_view()),
{
    lemma_count_free_all_free(empty_view().blocks);
    lemma_blocks_in_use_empty(empty_view().files);
}

/// Every operation keeps the whole-table count: afterwards the used blocks
/// are still exactly one index block per live file plus one data block per
/// started 128 bytes of its contents. So does every failed operation, which
/// changes nothing.
pub proof fn law_block_count_kept(v: FsView, name: Seq<u8>, other: Seq<u8>)
    requires
        view_wf(v),
        block_count_holds(v),
    ensures
        block_count_holds(spec_create(v, name).1),
        block_count_holds(spec_save(v, name, other).1),
        block_count_holds(spec_edit(v, name, other).1),
        block_count_holds(spec_delete(v, name).1),
        block_count_holds(spec_rename(v, name, other).1),
{
    lemma_find_file(v.files, name);
    if spec_create(v, name).0 is Ok {
        law_create_empty(v, name);
        lemma_first_unused_slot(v.files);
        let s = first_unused_slot(v.files).unwrap();
        lemma_blocks_in_use_update(v.files, s, spec_create(v, name).1.files[s]);
        assert(spec_create(v, name).1.files == v.files.update(s, spec_create(v, name).1.files[s]));
    }
    if spec_save(v, name, other).0 is Ok {
        lemma_save_keeps_count(v, name, other);
    }
    if spec_edit(v, name, other).0 is Ok {
        let c = spec_read(v, name).unwrap();
        lemma_save_keeps_count(v, name, c + other);
    }
    if spec_delete(v, name).0 is Ok {
        law_delete_frees_blocks(v, name);
        let i = find_file(v.files, name).unwrap();
        lemma_blocks_in_use_update(v.files, i, None);
    }
    if spec_rename(v, name, other).0 is Ok {
        let i = find_file(v.files, name).unwrap();
        let w = spec_rename(v, name, other).1;
        lemma_blocks_in_use_update(v.files, i, w.files[i]);
        assert(w.files == v.files.update(i, w.files[i]));
    }
}

proof fn lemma_save_keeps_count(v: FsView, name: Seq<u8>, data: Seq<u8>)
    requires
        view_wf(v),
        block_count_holds(v),
        spec_save(v, name, data).0 is Ok,
    ensures
        block_count_holds(spec_save(v, name, data).1),
{
    law_save_block_accounting(v, name, data);
    lemma_find_file(v.files, name);
    let i = find_file(v.files, name).unwrap();
    let w = spec_save(v, name, data).1;
    lemma_blocks_in_use_update(v.files, i, w.files[i]);
    assert(w.files == v.files.update(i, w.files[i]));
}

/// Each live file owns exactly one index block, its own, and exactly the
/// data blocks it lists: one per started 128 bytes of its contents, at most
/// four, none listed twice.
pub proof fn law_file_blocks_exact(v: FsView, i: int)
    requires
        view_wf(v),
        0 <= i < v.files.len(),
        v.files[i] is Some,
    ensures
        ({
            let f = v.files[i].unwrap();
            &&& f.data_blocks.len() == needed_blocks(f.content.len() as int)
            &&& f.data_blocks.len() <= MAX_DATA_BLOCKS_PER_FILE
            &&& f.data_blocks.no_duplicates()
            &&& forall|b: int|
                0 <= b < TOTAL_BLOCKS ==> (#[trigger] v.blocks[b] == Some((i, BlockKind::Index)) <==> b == f.index_block)
            &&& forall|b: int|
                0 <= b < TOTAL_BLOCKS ==> (#[trigger] v.blocks[b] == Some((i, BlockKind::Data)) <==> f.data_blocks.contains(b))
        }),
{
    let f = v.files[i].unwrap();
    assert(file_wf(v, i, f));
    assert forall|b: int| 0 <= b < TOTAL_BLOCKS implies (#[trigger] v.blocks[b] == Some((i, BlockKind::Index)) <==> b == f.index_block) by {
        if v.blocks[b] is Some {
            assert(block_wf(v, b, v.blocks[b].unwrap()));
        }
    }
    assert forall|b: int| 0 <= b < TOTAL_BLOCKS implies (#[trigger] v.blocks[b] == Some((i, BlockKind::Data)) <==> f.data_blocks.contains(b)) by {
        if v.blocks[b] is Some {
            assert(block_wf(v, b, v.blocks[b].unwrap()));
        }
        if f.data_blocks.contains(b) {
            let k = choose|k: int| 0 <= k < f.data_blocks.len() && f.data_blocks[k] == b;
            assert(v.blocks[f.data_blocks[k]] == Some((i, BlockKind::Data)));
        }
    }
}

proof fn lemma_blocks_in_use_bound(s: Seq<Option<FileView>>)
    requires
        forall|i: int| 0 <= i < s.len() && #[trigger] s[i] is Some ==> s[i].unwrap().content.len() <= MAX_CONTENT_LEN,
    ensures
        blocks_in_use(s) <= (1 + MAX_DATA_BLOCKS_PER_FILE) * count_live(s),
    decreases s.len(),
{
    if s.len() > 0 {
        let d = s.drop_last();
        assert forall|i: int| 0 <= i < d.len() && #[trigger] d[i] is Some implies d[i].unwrap().content.len()
            <= MAX_CONTENT_LEN by {
            assert(d[i] == s[i]);
        }
        lemma_blocks_in_use_bound(d);
        assert(s.last() == s[s.len() - 1]);
    }
}

/// Every live file of a consistent state has at most 512 bytes.
proof fn lemma_contents_bounded(v: FsView)
    requires
        view_wf(v),
    ensures
        forall|i: int| 0 <= i < v.files.len() && #[trigger] v.files[i] is Some ==> v.files[i].unwrap().content.len()
            <= MAX_CONTENT_LEN,
{
    assert forall|i: int| 0 <= i < v.files.len() && #[trigger] v.files[i] is Some implies v.files[i].unwrap().content.len()
        <= MAX_CONTENT_LEN by {
        assert(file_wf(v, i, v.files[i].unwrap()));
    }
}

/// Saving at most 512 bytes into an existing file never runs out of blocks:
/// the pool always has room for a full file besides the blocks of the
/// other files.
pub proof fn law_save_has_room(v: FsView, name: Seq<u8>, data: Seq<u8>)
    requires
        view_wf(v),
        block_count_holds(v),
        data.len() <= MAX_CONTENT_LEN,
        find_file(v.files, name) is Some,
    ensures
        spec_save(v, name, data).0 is Ok,
{
    lemma_find_file(v.files, name);
    let i = find_file(v.files, name).unwrap();
    let f = v.files[i].unwrap();
    assert(file_wf(v, i, f));
    let w = v.files.update(i, None);
    lemma_blocks_in_use_update(v.files, i, None);
    lemma_count_live_update(v.files, i, None);
    law_count_live_bound(v.files);
    lemma_contents_bounded(v);
    assert forall|j: int| 0 <= j < w.len() && #[trigger] w[j] is Some implies w[j].unwrap().content.len()
        <= MAX_CONTENT_LEN by {
        assert(w[j] == v.files[j]);
    }
    lemma_blocks_in_use_bound(w);
}

/// Creating a file fails for want of space only when all eight file slots
/// are taken: with a free slot, the block pool always has a free block.
pub proof fn law_create_has_room(v: FsView, name: Seq<u8>)
    requires
        view_wf(v),
        block_count_holds(v),
        spec_create(v, name).0 == Err::<(), FsError>(FsError::NoSpace),
    ensures
        count_live(v.files) == MAX_FILES,
{
    lemma_first_unused_slot(v.files);
    lemma_first_free_block(v.blocks);
    law_count_live_bound(v.files);
    match first_unused_slot(v.files) {
        None => {
            lemma_count_live_full(v.files);
        },
        Some(s) => {
            let x = FileView { name: Seq::empty(), content: Seq::empty(), index_block: 0, data_blocks: Seq::empty() };
            lemma_count_live_update(v.files, s, Some(x));
            law_count_live_bound(v.files.update(s, Some(x)));
            lemma_contents_bounded(v);
            lemma_blocks_in_use_bound(v.files);
            lemma_count_free_exists(v.blocks);
        },
    }
}

proof fn lemma_count_live_full(s: Seq<Option<FileView>>)
    requires
        forall|i: int| 0 <= i < s.len() ==> #[trigger] s[i] is Some,
    ensures
        count_live(s) == s.len(),
    decreases s.len(),
{
    if s.len() > 0 {
        let d = s.drop_last();
        assert forall|i: int| 0 <= i < d.len() implies #[trigger] d[i] is Some by {
            assert(d[i] == s[i]);
        }
        lemma_count_live_full(d);
        assert(s.last() == s[s.len() - 1]);
    }
}

/// Appending to a file fails only when the file is missing or the result
/// would pass 512 bytes; it never runs out of blocks.
pub proof fn law_edit_has_room(v: FsView, name: Seq<u8>, extra: Seq<u8>)
    requires
        view_wf(v),
        block_count_holds(v),
    ensures
        spec_edit(v, name, extra).0 != Err::<(), FsError>(FsError::NoSpace),
{
    lemma_find_file(v.files, name);
    if let Ok(c) = spec_read(v, name) {
        if c.len() + extra.len() <= MAX_CONTENT_LEN {
            law_save_has_room(v, name, c + extra);
        }
    }
}

/// Every live file appears in the directory listing with its name and size.
pub proof fn law_live_file_listed(v: FsView, name: Seq<u8>)
    requires
        spec_read(v, name) is Ok,
    ensures
        exists|k: int|
            0 <= k < listing(v.files).len() && #[trigger] listing(v.files)[k] == (name, spec_read(v, name).unwrap().len()),
{
    lemma_find_file(v.files, name);
    let i = find_file(v.files, name).unwrap();
    lemma_listing_has_slot(v.files, i);
    let k = count_live(v.files.take(i)) as int;
    assert(listing(v.files)[k] == (name, spec_read(v, name).unwrap().len()));
}

/// After a successful save the listing reports the file with the size of
/// the saved data.
pub proof fn law_save_then_listed(v: FsView, name: Seq<u8>, data: Seq<u8>)
    requires
        view_wf(v),
        spec_save(v, name, data).0 is Ok,
    ensures
        exists|k: int|
            0 <= k < listing(spec_save(v, name, data).1.files).len() && #[trigger] listing(
                spec_save(v, name, data).1.files,
            )[k] == (name, data.len()),
{
    law_read_after_save(v, name, data);
    law_live_file_listed(spec_save(v, name, data).1, name);
}

pub proof fn lemma_count_live_update(s: Seq<Option<super::fs_spec::FileView>>, i: int, x: Option<super::fs_spec::FileView>)
    requires
        0 <= i < s.len(),
    ensures
        count_live(s.update(i, x)) + (if s[i] is Some { 1int } else { 0int })
            == count_live(s) + (if x is Some { 1int } else { 0int }),
    decreases s.len(),
{
    let t = s.update(i, x);
    if i == s.len() - 1 {
        assert(t.drop_last() =~= s.drop_last());
    } else {
        assert(t.drop_last() =~= s.drop_last().update(i, x));
        lemma_count_live_update(s.drop_last(), i, x);
    }
}

/// The file table never holds more than its capacity.
pub proof fn law_count_live_bound(files: Seq<Option<super::fs_spec::FileView>>)
    ensures
        count_live(files) <= files.len(),
    decreases files.len(),
{
    if files.len() > 0 {
        law_count_live_bound(files.drop_last());
    }
}

} // verus!
