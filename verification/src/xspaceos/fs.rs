//! In-memory flat file system: a fixed table of fixed-size files.
//!
//! Four core operations: create a named empty file, save (replace) its
//! contents, edit (append to) its contents and delete it.
use vstd::prelude::*;
use vstd::string::StringSliceAdditionalSpecFns;
use vstd::utf8::valid_utf8;
use crate::honeyos::fs_spec::{first_index, lemma_first_index};

verus! {

/// Maximum number of files the file system can hold at once.
pub const MAX_FILES: usize = 8;
/// Maximum length, in bytes, of a file name.
pub const MAX_NAME_LEN: usize = 32;
/// Maximum length, in bytes, of a file's contents.
pub const MAX_CONTENT_LEN: usize = 512;

/// Errors that a file system operation can return.
#[derive(Debug, Clone, Copy, PartialEq, Eq, Structural)]
pub enum FsError {
    /// The file table is full; no free slot is available.
    NoSpace,
    /// No file with the requested name exists.
    NotFound,
    /// A file with that name already exists.
    AlreadyExists,
    /// The file name is empty or longer than `MAX_NAME_LEN`.
    BadName,
    /// The contents would exceed `MAX_CONTENT_LEN`.
    ContentTooLong,
}

/// The message shown on screen for each error.
pub open spec fn error_message(e: FsError) -> Seq<char> {
    match e {
        FsError::NoSpace => "file system is full"@,
        FsError::NotFound => "file not found"@,
        FsError::AlreadyExists => "file already exists"@,
        FsError::BadName => "invalid file name"@,
        FsError::ContentTooLong => "content exceeds maximum size"@,
    }
}

impl FsError {
    /// A human-readable description, used when reporting results on screen.
    pub fn as_str(&self) -> (s: &'static str)
        ensures
            s@ == error_message(*self),
    {
        match self {
            FsError::NoSpace => "file system is full",
            FsError::NotFound => "file not found",
            FsError::AlreadyExists => "file already exists",
            FsError::BadName => "invalid file name",
            FsError::ContentTooLong => "content exceeds maximum size",
        }
    }
}

/// Abstract state of one live file.
#[verifier::ext_equal]
pub struct FileView {
    pub name: Seq<u8>,
    pub content: Seq<u8>,
}

/// The slot of the live file called `name`, if any.
pub open spec fn find_file(files: Seq<Option<FileView>>, name: Seq<u8>) -> Option<int> {
    first_index(|i: int| files[i] matches Some(f) && f.name == name, 0, files.len() as int)
}

/// The first free slot.
pub open spec fn first_unused_slot(files: Seq<Option<FileView>>) -> Option<int> {
    first_index(|i: int| files[i] is None, 0, files.len() as int)
}

/// Well-formedness of the abstract file table.
pub open spec fn view_wf(files: Seq<Option<FileView>>) -> bool {
    &&& files.len() == MAX_FILES
    &&& forall|i: int|
        0 <= i < files.len() && #[trigger] files[i] is Some ==> {
            let f = files[i].unwrap();
            &&& 1 <= f.name.len() <= MAX_NAME_LEN
            &&& valid_utf8(f.name)
            &&& f.content.len() <= MAX_CONTENT_LEN
            &&& valid_utf8(f.content)
        }
    &&& forall|i: int, j: int|
        #![trigger files[i], files[j]]
        0 <= i < files.len() && 0 <= j < files.len() && files[i] is Some && files[j] is Some
            && files[i].unwrap().name == files[j].unwrap().name ==> i == j
}

/// CREATE: register a new, empty file in the first free slot.
pub open spec fn spec_create(files: Seq<Option<FileView>>, name: Seq<u8>) -> (Result<(), FsError>, Seq<Option<FileView>>) {
    if name.len() == 0 || name.len() > MAX_NAME_LEN {
        (Err(FsError::BadName), files)
    } else if find_file(files, name) is Some {
        (Err(FsError::AlreadyExists), files)
    } else {
        match first_unused_slot(files) {
            None => (Err(FsError::NoSpace), files),
            Some(s) => (Ok(()), files.update(s, Some(FileView { name, content: Seq::empty() }))),
        }
    }
}

/// SAVE: replace the contents of an existing file.
pub open spec fn spec_save(files: Seq<Option<FileView>>, name: Seq<u8>, data: Seq<u8>) -> (Result<(), FsError>, Seq<Option<FileView>>) {
    if data.len() > MAX_CONTENT_LEN {
        (Err(FsError::ContentTooLong), files)
    } else {
        match find_file(files, name) {
            None => (Err(FsError::NotFound), files),
            Some(i) => (Ok(()), files.update(i, Some(FileView { name, content: data }))),
        }
    }
}

/// EDIT: append `extra` to the contents of an existing file.
pub open spec fn spec_edit(files: Seq<Option<FileView>>, name: Seq<u8>, extra: Seq<u8>) -> (Result<(), FsError>, Seq<Option<FileView>>) {
    match find_file(files, name) {
        None => (Err(FsError::NotFound), files),
        Some(i) => {
            let content = files[i].unwrap().content;
            if content.len() + extra.len() > MAX_CONTENT_LEN {
                (Err(FsError::ContentTooLong), files)
            } else {
                (Ok(()), files.update(i, Some(FileView { name, content: content + extra })))
            }
        },
    }
}

/// DELETE: remove a file and free its slot.
pub open spec fn spec_delete(files: Seq<Option<FileView>>, name: Seq<u8>) -> (Result<(), FsError>, Seq<Option<FileView>>) {
    match find_file(files, name) {
        None => (Err(FsError::NotFound), files),
        Some(i) => (Ok(()), files.update(i, None)),
    }
}

/// READ: the contents of the file called `name`.
pub open spec fn spec_read(files: Seq<Option<FileView>>, name: Seq<u8>) -> Result<Seq<u8>, FsError> {
    match find_file(files, name) {
        None => Err(FsError::NotFound),
        Some(i) => Ok(files[i].unwrap().content),
    }
}

/// Number of live files.
pub open spec fn count_live(files: Seq<Option<FileView>>) -> nat
    decreases files.len(),
{
    if files.len() == 0 {
        0
    } else {
        count_live(files.drop_last()) + if files.last() is Some { 1nat } else { 0nat }
    }
}

/// The live files in slot order, as (name, content length) pairs.
pub open spec fn listing(files: Seq<Option<FileView>>) -> Seq<(Seq<u8>, nat)>
    decreases files.len(),
{
    if files.len() == 0 {
        Seq::empty()
    } else {
        listing(files.drop_last()) + match files.last() {
            Some(f) => seq![(f.name, f.content.len())],
            None => Seq::empty(),
        }
    }
}

pub proof fn lemma_find_file(files: Seq<Option<FileView>>, name: Seq<u8>)
    ensures
        match find_file(files, name) {
            Some(i) => 0 <= i < files.len() && files[i] is Some && files[i].unwrap().name == name
                && forall|j: int| 0 <= j < i ==> !(#[trigger] files[j] matches Some(f) && f.name == name),
            None => forall|j: int| 0 <= j < files.len() ==> !(#[trigger] files[j] matches Some(f) && f.name == name),
        },
{
    let p = |i: int| files[i] matches Some(f) && f.name == name;
    lemma_first_index(p, 0, files.len() as int);
    match find_file(files, name) {
        Some(i) => {
            assert forall|j: int| 0 <= j < i implies !(#[trigger] files[j] matches Some(f) && f.name == name) by {
                assert(!p(j));
            }
        },
        None => {
            assert forall|j: int| 0 <= j < files.len() implies !(#[trigger] files[j] matches Some(f) && f.name == name) by {
                assert(!p(j));
            }
        },
    }
}

pub proof fn lemma_first_unused_slot(files: Seq<Option<FileView>>)
    ensures
        match first_unused_slot(files) {
            Some(i) => 0 <= i < files.len() && files[i] is None && forall|j: int|
                0 <= j < i ==> #[trigger] files[j] is Some,
            None => forall|j: int| 0 <= j < files.len() ==> #[trigger] files[j] is Some,
        },
{
    let p = |i: int| files[i] is None;
    lemma_first_index(p, 0, files.len() as int);
    match first_unused_slot(files) {
        Some(i) => {
            assert forall|j: int| 0 <= j < i implies #[trigger] files[j] is Some by {
                assert(!p(j));
            }
        },
        None => {
            assert forall|j: int| 0 <= j < files.len() implies #[trigger] files[j] is Some by {
                assert(!p(j));
            }
        },
    }
}

/// A single file: a name and a body, each stored in a fixed-size buffer with
/// an accompanying length.
#[derive(Clone, Copy)]
struct File {
    /// Whether this table slot currently holds a live file.
    used: bool,
    name: [u8; MAX_NAME_LEN],
    name_len: usize,
    content: [u8; MAX_CONTENT_LEN],
    content_len: usize,
}

spec fn file_view(f: File) -> Option<FileView> {
    if f.used {
        Some(
            FileView {
                name: f.name@.subrange(0, f.name_len as int),
                content: f.content@.subrange(0, f.content_len as int),
            },
        )
    } else {
        None
    }
}

spec fn file_bounds(f: File) -> bool {
    f.used ==> f.name_len <= MAX_NAME_LEN && f.content_len <= MAX_CONTENT_LEN
}

impl File {
    /// An empty, unused slot.
    fn empty() -> (f: File)
        ensures
            !f.used,
    {
        File {
            used: false,
            name: [0u8; MAX_NAME_LEN],
            name_len: 0,
            content: [0u8; MAX_CONTENT_LEN],
            content_len: 0,
        }
    }

    /// Does this live file have the given name?
    fn matches(&self, name: &str) -> (b: bool)
        requires
            file_bounds(*self),
        ensures
            b == (file_view(*self) matches Some(f) && f.name == name.spec_bytes()),
    {
        let bytes = name.as_bytes();
        if !self.used || self.name_len != bytes.len() {
            return false;
        }
        let mut j: usize = 0;
        while j < self.name_len
            invariant
                self.used,
                self.name_len <= MAX_NAME_LEN,
                bytes@ == name.spec_bytes(),
                bytes@.len() == self.name_len,
                j <= self.name_len,
                forall|m: int| 0 <= m < j ==> self.name@[m] == bytes@[m],
            decreases self.name_len - j,
        {
            if self.name[j] != bytes[j] {
                assert(self.name@.subrange(0, self.name_len as int)[j as int] != bytes@[j as int]);
                return false;
            }
            j += 1;
        }
        assert(self.name@.subrange(0, self.name_len as int) =~= bytes@);
        true
    }
}

/// The file system: a fixed table of file slots.
pub struct FileSystem {
    files: Vec<File>,
}

impl View for FileSystem {
    type V = Seq<Option<FileView>>;

    closed spec fn view(&self) -> Seq<Option<FileView>> {
        self.files@.map_values(|f: File| file_view(f))
    }
}

impl FileSystem {
    /// The file table is consistent.
    pub closed spec fn wf(&self) -> bool {
        &&& self.files@.len() == MAX_FILES
        &&& forall|i: int| 0 <= i < MAX_FILES ==> file_bounds(#[trigger] self.files@[i])
        &&& view_wf(self@)
    }

    /// A consistent file system has a well-formed view: eight slots, names
    /// of 1 to 32 bytes and unique, contents of at most 512 bytes.
    pub proof fn lemma_view_wf(&self)
        requires
            self.wf(),
        ensures
            view_wf(self@),
    {
    }

    /// Create an empty file system.
    pub fn new() -> (fs: FileSystem)
        ensures
            fs.wf(),
            fs@ == Seq::new(MAX_FILES as nat, |i: int| None::<FileView>),
    {
        let mut files: Vec<File> = Vec::new();
        let mut i: usize = 0;
        while i < MAX_FILES
            invariant
                i <= MAX_FILES,
                files@.len() == i,
                forall|j: int| 0 <= j < i ==> !(#[trigger] files@[j]).used,
            decreases MAX_FILES - i,
        {
            files.push(File::empty());
            i += 1;
        }
        let fs = FileSystem { files };
        assert(fs@ =~= Seq::new(MAX_FILES as nat, |i: int| None::<FileView>));
        fs
    }

    /// Find the index of the live file with `name`, if any.
    fn find(&self, name: &str) -> (r: Option<usize>)
        requires
            self.wf(),
        ensures
            match find_file(self@, name.spec_bytes()) {
                Some(i) => r == Some(i as usize),
                None => r is None,
            },
    {
        let mut i: usize = 0;
        while i < MAX_FILES
            invariant
                self.wf(),
                i <= MAX_FILES,
                forall|j: int| 0 <= j < i ==> !(#[trigger] self@[j] matches Some(f) && f.name == name.spec_bytes()),
            decreases MAX_FILES - i,
        {
            let m = self.files[i].matches(name);
            assert(self@[i as int] == file_view(self.files@[i as int]));
            if m {
                proof {
                    lemma_find_file(self@, name.spec_bytes());
                }
                return Some(i);
            }
            i += 1;
        }
        proof {
            lemma_find_file(self@, name.spec_bytes());
        }
        None
    }

    /// Copy the bytes of `src` into `dst` from offset `at`; the other bytes
    /// of `dst` keep their values.
    fn copy_into<const N: usize>(dst: &mut [u8; N], at: usize, src: &[u8])
        requires
            at + src@.len() <= N,
        ensures
            final(dst)@ == old(dst)@.subrange(0, at as int) + src@ + old(dst)@.subrange(
                at + src@.len(),
                N as int,
            ),
    {
        let mut j: usize = 0;
        while j < src.len()
            invariant
                at + src@.len() <= N,
                j <= src@.len(),
                dst@.len() == N,
                forall|m: int| 0 <= m < at ==> #[trigger] dst@[m] == old(dst)@[m],
                forall|m: int| 0 <= m < j ==> #[trigger] dst@[at + m] == src@[m],
                forall|m: int| at + j <= m < N ==> #[trigger] dst@[m] == old(dst)@[m],
            decreases src@.len() - j,
        {
            dst[at + j] = src[j];
            j += 1;
        }
        let ghost rhs = old(dst)@.subrange(0, at as int) + src@ + old(dst)@.subrange(at + src@.len(), N as int);
        assert forall|i: int| 0 <= i < N implies #[trigger] dst@[i] == rhs[i] by {
            if at <= i < at + src@.len() {
                assert(dst@[at + (i - at)] == src@[i - at]);
            }
        }
        assert(dst@ =~= rhs);
    }

    /// CREATE: register a new, empty file.
    ///
    /// Fails if the name is invalid, a file with that name already exists, or
    /// the file table is full.
    pub fn create(&mut self, name: &str) -> (r: Result<(), FsError>)
        requires
            old(self).wf(),
        ensures
            final(self).wf(),
            (r, final(self)@) == spec_create(old(self)@, name.spec_bytes()),
    {
        let bytes = name.as_bytes();
        let len = bytes.len();
        if len == 0 || len > MAX_NAME_LEN {
            return Err(FsError::BadName);
        }
        if self.find(name).is_some() {
            return Err(FsError::AlreadyExists);
        }
        let ghost v0 = self@;
        let mut idx: usize = 0;
        while idx < MAX_FILES && self.files[idx].used
            invariant
                idx <= MAX_FILES,
                self.wf(),
                self@ == v0,
                forall|j: int| 0 <= j < idx ==> (#[trigger] self.files@[j]).used,
            decreases MAX_FILES - idx,
        {
            idx += 1;
        }
        proof {
            lemma_first_unused_slot(v0);
            lemma_find_file(v0, name.spec_bytes());
        }
        if idx == MAX_FILES {
            proof {
                if let Some(k) = first_unused_slot(v0) {
                    assert(self.files@[k].used);
                }
            }
            return Err(FsError::NoSpace);
        }
        proof {
            if let Some(k) = first_unused_slot(v0) {
                if k < idx {
                    assert(self.files@[k].used);
                }
            }
            assert(v0[idx as int] is None);
        }
        let mut file = self.files[idx];
        let mut name_buf = file.name;
        Self::copy_into(&mut name_buf, 0, bytes);
        file.name = name_buf;
        file.used = true;
        file.name_len = len;
        file.content_len = 0;
        self.files[idx] = file;
        proof {
            let nb = name.spec_bytes();
            vstd::utf8::encode_utf8_valid_utf8(name@);
            assert(file.name@.subrange(0, len as int) =~= nb);
            assert(file.content@.subrange(0, 0) =~= Seq::<u8>::empty());
            let w = spec_create(v0, nb).1;
            assert(self@ =~= w);
            assert forall|i: int| 0 <= i < MAX_FILES implies file_bounds(#[trigger] self.files@[i]) by {
                if i != idx {
                    assert(self.files@[i] == old(self).files@[i]);
                }
            }
            assert forall|i: int, j: int|
                #![trigger w[i], w[j]]
                0 <= i < w.len() && 0 <= j < w.len() && w[i] is Some && w[j] is Some && w[i].unwrap().name
                    == w[j].unwrap().name implies i == j by {
                if i != idx && j == idx {
                    assert(v0[i] == w[i]);
                } else if i == idx && j != idx {
                    assert(v0[j] == w[j]);
                }
            }
        }
        Ok(())
    }

    /// SAVE: replace the entire contents of an existing file.
    pub fn save(&mut self, name: &str, data: &str) -> (r: Result<(), FsError>)
        requires
            old(self).wf(),
        ensures
            final(self).wf(),
            (r, final(self)@) == spec_save(old(self)@, name.spec_bytes(), data.spec_bytes()),
    {
        let bytes = data.as_bytes();
        if bytes.len() > MAX_CONTENT_LEN {
            return Err(FsError::ContentTooLong);
        }
        let idx = match self.find(name) {
            Some(i) => i,
            None => {
                return Err(FsError::NotFound);
            },
        };
        let ghost v0 = self@;
        proof {
            lemma_find_file(v0, name.spec_bytes());
            assert(file_bounds(self.files@[idx as int]));
        }
        let mut file = self.files[idx];
        let mut content = file.content;
        Self::copy_into(&mut content, 0, bytes);
        file.content = content;
        file.content_len = bytes.len();
        self.files[idx] = file;
        proof {
            vstd::utf8::encode_utf8_valid_utf8(data@);
            assert(file.content@.subrange(0, bytes@.len() as int) =~= bytes@);
            let w = spec_save(v0, name.spec_bytes(), data.spec_bytes()).1;
            assert(self@ =~= w);
            self.lemma_update_keeps_wf(v0, idx as int);
        }
        Ok(())
    }

    /// Replacing one live file's contents (same name) keeps the table well
    /// formed.
    proof fn lemma_update_keeps_wf(&self, v0: Seq<Option<FileView>>, idx: int)
        requires
            self.files@.len() == MAX_FILES,
            view_wf(v0),
            0 <= idx < MAX_FILES,
            v0[idx] is Some,
            self@[idx] is Some,
            self@[idx].unwrap().name == v0[idx].unwrap().name,
            self@[idx].unwrap().content.len() <= MAX_CONTENT_LEN,
            valid_utf8(self@[idx].unwrap().content),
            file_bounds(self.files@[idx]),
            forall|i: int| 0 <= i < MAX_FILES && i != idx ==> #[trigger] self@[i] == v0[i],
            forall|i: int| 0 <= i < MAX_FILES && i != idx ==> file_bounds(#[trigger] self.files@[i]),
        ensures
            self.wf(),
    {
        assert forall|i: int| 0 <= i < MAX_FILES implies file_bounds(#[trigger] self.files@[i]) by {}
        let w = self@;
        assert forall|i: int, j: int|
            #![trigger w[i], w[j]]
            0 <= i < w.len() && 0 <= j < w.len() && w[i] is Some && w[j] is Some && w[i].unwrap().name
                == w[j].unwrap().name implies i == j by {
            assert(v0[i] is Some && v0[j] is Some);
            assert(v0[i].unwrap().name == w[i].unwrap().name);
            assert(v0[j].unwrap().name == w[j].unwrap().name);
        }
    }

    /// EDIT: append text to the end of an existing file's contents.
    ///
    /// Fails if the file does not exist or the result would be too large.
    pub fn edit(&mut self, name: &str, extra: &str) -> (r: Result<(), FsError>)
        requires
            old(self).wf(),
        ensures
            final(self).wf(),
            (r, final(self)@) == spec_edit(old(self)@, name.spec_bytes(), extra.spec_bytes()),
    {
        let idx = match self.find(name) {
            Some(i) => i,
            None => {
                return Err(FsError::NotFound);
            },
        };
        let ghost v0 = self@;
        proof {
            lemma_find_file(v0, name.spec_bytes());
            assert(file_bounds(self.files@[idx as int]));
        }
        let bytes = extra.as_bytes();
        let mut file = self.files[idx];
        if bytes.len() > MAX_CONTENT_LEN - file.content_len {
            return Err(FsError::ContentTooLong);
        }
        let new_len = file.content_len + bytes.len();
        let mut content = file.content;
        Self::copy_into(&mut content, file.content_len, bytes);
        file.content = content;
        file.content_len = new_len;
        self.files[idx] = file;
        proof {
            let old_content = v0[idx as int].unwrap().content;
            vstd::utf8::encode_utf8_valid_utf8(extra@);
            vstd::utf8::valid_utf8_concat(old_content, extra.spec_bytes());
            assert(file.content@.subrange(0, new_len as int) =~= old_content + bytes@);
            let w = spec_edit(v0, name.spec_bytes(), extra.spec_bytes()).1;
            assert(self@ =~= w);
            self.lemma_update_keeps_wf(v0, idx as int);
        }
        Ok(())
    }

    /// DELETE: remove a file and free its table slot.
    pub fn delete(&mut self, name: &str) -> (r: Result<(), FsError>)
        requires
            old(self).wf(),
        ensures
            final(self).wf(),
            (r, final(self)@) == spec_delete(old(self)@, name.spec_bytes()),
    {
        let idx = match self.find(name) {
            Some(i) => i,
            None => {
                return Err(FsError::NotFound);
            },
        };
        let ghost v0 = self@;
        proof {
            lemma_find_file(v0, name.spec_bytes());
        }
        self.files[idx] = File::empty();
        proof {
            let w = spec_delete(v0, name.spec_bytes()).1;
            assert(self@ =~= w);
            assert forall|i: int| 0 <= i < MAX_FILES implies file_bounds(#[trigger] self.files@[i]) by {
                if i != idx {
                    assert(self.files@[i] == old(self).files@[i]);
                }
            }
            assert forall|i: int, j: int|
                #![trigger w[i], w[j]]
                0 <= i < w.len() && 0 <= j < w.len() && w[i] is Some && w[j] is Some && w[i].unwrap().name
                    == w[j].unwrap().name implies i == j by {
                assert(v0[i] == w[i] && v0[j] == w[j]);
            }
        }
        Ok(())
    }

    /// Read back the contents of a file as a string slice.
    pub fn read(&self, name: &str) -> (r: Result<&str, FsError>)
        requires
            self.wf(),
        ensures
            match spec_read(self@, name.spec_bytes()) {
                Err(e) => r == Err::<&str, FsError>(e),
                Ok(c) => r matches Ok(s) && s.spec_bytes() == c,
            },
    {
        let idx = match self.find(name) {
            Some(i) => i,
            None => {
                return Err(FsError::NotFound);
            },
        };
        proof {
            lemma_find_file(self@, name.spec_bytes());
            assert(file_bounds(self.files@[idx as int]));
        }
        let file = &self.files[idx];
        let bytes = vstd::slice::slice_subrange(file.content.as_slice(), 0, file.content_len);
        match crate::text::str_from_utf8(bytes) {
            Some(s) => Ok(s),
            None => Ok("<non-utf8>"),
        }
    }

    /// Number of files currently stored.
    pub fn file_count(&self) -> (n: usize)
        requires
            self.wf(),
        ensures
            n == count_live(self@),
    {
        let mut n: usize = 0;
        let mut i: usize = 0;
        while i < MAX_FILES
            invariant
                self.wf(),
                i <= MAX_FILES,
                n <= i,
                n == count_live(self@.take(i as int)),
            decreases MAX_FILES - i,
        {
            assert(self@.take(i + 1).drop_last() =~= self@.take(i as int));
            assert(self@.take(i + 1).last() == file_view(self.files@[i as int]));
            if self.files[i].used {
                n += 1;
            }
            i += 1;
        }
        assert(self@.take(MAX_FILES as int) =~= self@);
        n
    }

    /// Every live file in slot order, as (name, content length) pairs. Used to
    /// list the directory.
    pub fn for_each_file<'a>(&'a self) -> (r: Vec<(&'a str, usize)>)
        requires
            self.wf(),
        ensures
            r@.len() == listing(self@).len(),
            forall|k: int|
                0 <= k < r@.len() ==> (#[trigger] r@[k]).0.spec_bytes() == listing(self@)[k].0
                    && r@[k].1 == listing(self@)[k].1,
    {
        let mut r: Vec<(&'a str, usize)> = Vec::new();
        let mut i: usize = 0;
        while i < MAX_FILES
            invariant
                self.wf(),
                i <= MAX_FILES,
                r@.len() == listing(self@.take(i as int)).len(),
                r@.len() <= i,
                forall|k: int|
                    0 <= k < r@.len() ==> (#[trigger] r@[k]).0.spec_bytes() == listing(self@.take(i as int))[k].0
                        && r@[k].1 == listing(self@.take(i as int))[k].1,
            decreases MAX_FILES - i,
        {
            let ghost prev = listing(self@.take(i as int));
            assert(self@.take(i + 1).drop_last() =~= self@.take(i as int));
            assert(self@.take(i + 1).last() == file_view(self.files@[i as int]));
            let f = &self.files[i];
            if f.used {
                assert(file_bounds(self.files@[i as int]));
                let name_bytes = vstd::slice::slice_subrange(f.name.as_slice(), 0, f.name_len);
                let name = match crate::text::str_from_utf8(name_bytes) {
                    Some(s) => s,
                    None => "<?>",
                };
                r.push((name, f.content_len));
            }
            proof {
                let next = listing(self@.take(i + 1));
                assert forall|k: int| 0 <= k < r@.len() implies (#[trigger] r@[k]).0.spec_bytes() == next[k].0
                    && r@[k].1 == next[k].1 by {
                    if k < prev.len() {
                        assert(next[k] == prev[k]);
                    }
                }
            }
            i += 1;
        }
        assert(self@.take(MAX_FILES as int) =~= self@);
        r
    }
}

} // verus!
