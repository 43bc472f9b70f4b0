//! Laws of the flat file system, stated over its model.
use vstd::prelude::*;
use super::fs::{
    FileView, FsError, view_wf, find_file, lemma_find_file, first_unused_slot, lemma_first_unused_slot,
    spec_create, spec_save, spec_edit, spec_delete, spec_read, count_live,
};

verus! {

/// Reading `other` is unaffected by a change confined to slot `i` when that
/// slot does not hold a file called `other` before or after.
proof fn lemma_read_frame(v: Seq<Option<FileView>>, w: Seq<Option<FileView>>, i: int, other: Seq<u8>)
    requires
        v.len() == w.len(),
        0 <= i < v.len(),
        forall|j: int| 0 <= j < v.len() && j != i ==> #[trigger] w[j] == v[j],
        !(v[i] matches Some(f) && f.name == other),
        !(w[i] matches Some(f) && f.name == other),
    ensures
        spec_read(w, other) == spec_read(v, other),
{
    lemma_find_file(v, other);
    lemma_find_file(w, other);
    match find_file(v, other) {
        Some(k) => {
            assert(w[k] == v[k]);
            match find_file(w, other) {
                Some(m) => {
                    if m < k {
                        assert(w[m] == v[m]);
                    }
                },
                None => {},
            }
        },
        None => {
            if let Some(m) = find_file(w, other) {
                assert(w[m] == v[m]);
            }
        },
    }
}

/// After a successful save, reading the file gives back exactly the saved
/// bytes.
pub proof fn law_read_after_save(v: Seq<Option<FileView>>, name: Seq<u8>, data: Seq<u8>)
    requires
        view_wf(v),
        spec_save(v, name, data).0 is Ok,
    ensures
        spec_read(spec_save(v, name, data).1, name) == Ok::<Seq<u8>, FsError>(data),
{
    let w = spec_save(v, name, data).1;
    lemma_find_file(v, name);
    lemma_find_file(w, name);
    let i = find_file(v, name).unwrap();
    assert(w[i] is Some);
    if let Some(j) = find_file(w, name) {
        if j != i {
            assert(w[j] == v[j]);
        }
    }
}

/// After a successful edit, the file holds its old contents followed by the
/// appended bytes.
pub proof fn law_edit_appends(v: Seq<Option<FileView>>, name: Seq<u8>, extra: Seq<u8>)
    requires
        view_wf(v),
        spec_edit(v, name, extra).0 is Ok,
    ensures
        spec_read(spec_edit(v, name, extra).1, name) == Ok::<Seq<u8>, FsError>(
            spec_read(v, name).unwrap() + extra,
        ),
{
    let w = spec_edit(v, name, extra).1;
    lemma_find_file(v, name);
    lemma_find_file(w, name);
    let i = find_file(v, name).unwrap();
    assert(w[i] is Some);
    if let Some(j) = find_file(w, name) {
        if j != i {
            assert(w[j] == v[j]);
        }
    }
}

/// A newly created file is empty, and the number of files grows by one.
pub proof fn law_create_empty(v: Seq<Option<FileView>>, name: Seq<u8>)
    requires
        view_wf(v),
        spec_create(v, name).0 is Ok,
    ensures
        spec_read(spec_create(v, name).1, name) == Ok::<Seq<u8>, FsError>(Seq::empty()),
        count_live(spec_create(v, name).1) == count_live(v) + 1,
{
    let w = spec_create(v, name).1;
    lemma_find_file(v, name);
    lemma_find_file(w, name);
    lemma_first_unused_slot(v);
    let s = first_unused_slot(v).unwrap();
    if let Some(j) = find_file(w, name) {
        if j != s {
            assert(w[j] == v[j]);
        }
    }
    lemma_count_live_update(v, s, w[s]);
}

/// After a successful delete the file is gone and the number of files drops
/// by one.
pub proof fn law_delete_removes(v: Seq<Option<FileView>>, name: Seq<u8>)
    requires
        view_wf(v),
        spec_delete(v, name).0 is Ok,
    ensures
        spec_read(spec_delete(v, name).1, name) == Err::<Seq<u8>, FsError>(FsError::NotFound),
        count_live(spec_delete(v, name).1) + 1 == count_live(v),
{
    let w = spec_delete(v, name).1;
    lemma_find_file(v, name);
    lemma_find_file(w, name);
    let i = find_file(v, name).unwrap();
    if let Some(j) = find_file(w, name) {
        assert(w[j] == v[j]);
    }
    lemma_count_live_update(v, i, None);
}

/// Create, save, edit and delete of `name` leave every file with another name
/// as it was.
pub proof fn law_other_files_unchanged(v: Seq<Option<FileView>>, name: Seq<u8>, data: Seq<u8>, other: Seq<u8>)
    requires
        view_wf(v),
        other != name,
    ensures
        spec_read(spec_create(v, name).1, other) == spec_read(v, other),
        spec_read(spec_save(v, name, data).1, other) == spec_read(v, other),
        spec_read(spec_edit(v, name, data).1, other) == spec_read(v, other),
        spec_read(spec_delete(v, name).1, other) == spec_read(v, other),
{
    lemma_find_file(v, name);
    lemma_first_unused_slot(v);
    if let Some(i) = find_file(v, name) {
        lemma_read_frame(v, spec_save(v, name, data).1, i, other);
        lemma_read_frame(v, spec_edit(v, name, data).1, i, other);
        lemma_read_frame(v, spec_delete(v, name).1, i, other);
    }
    if spec_create(v, name).0 is Ok {
        lemma_read_frame(v, spec_create(v, name).1, first_unused_slot(v).unwrap(), other);
    }
}

/// A failed operation leaves the file table exactly as it was.
pub proof fn law_failure_changes_nothing(v: Seq<Option<FileView>>, name: Seq<u8>, data: Seq<u8>)
    ensures
        spec_create(v, name).0 is Err ==> spec_create(v, name).1 == v,
        spec_save(v, name, data).0 is Err ==> spec_save(v, name, data).1 == v,
        spec_edit(v, name, data).0 is Err ==> spec_edit(v, name, data).1 == v,
        spec_delete(v, name).0 is Err ==> spec_delete(v, name).1 == v,
{
}

pub proof fn lemma_count_live_update(s: Seq<Option<FileView>>, i: int, x: Option<FileView>)
    requires
        0 <= i < s.len(),
    ensures
        count_live(s.update(i, x)) + (if s[i] is Some { 1int } else { 0int })
            == count_live(s) + (if x is Some { 1int } else { 0int }),
    decreases s.len(),
{
    let t = s.update(i, x);
    if i == s.len() - 1 {
        assert(t.drop_last() =~= s.drop_last());
    } else {
        assert(t.drop_last() =~= s.drop_last().update(i, x));
        lemma_count_live_update(s.drop_last(), i, x);
    }
}

} // verus!
