//! The store: images kept as files under string keys, one lock per key.
//!
//! A [`DB`] is the picture of one directory. Each node of the directory
//! has a name and, where it is a regular file, a content. A node is an
//! entry of the store where its name is a valid key and its content is a
//! valid image file. The nodes keep the order in which the directory lists
//! them; a new entry comes last.
use crate::error::{Error, ImagedStatus};
use crate::image::{
    is_valid_file, spec_file, spec_file_image, spec_valid_file, Image, ImageView, Ownership,
};
use crate::lock::LockState;
use crate::meta::Meta;
use vstd::prelude::*;
use vstd::slice::slice_to_vec;
use vstd::string::StrSliceExecFns;

verus! {

/// The longest name that a file can have, in bytes.
pub const MAX_KEY_LEN: usize = 255;

/// Whether a text can be the key of an entry: it is a file name. It is not
/// empty and no longer than `MAX_KEY_LEN` bytes, holds neither `/` nor the
/// NUL character, and is neither `.` nor `..`.
pub open spec fn spec_valid_key(key: Seq<char>) -> bool {
    &&& 0 < vstd::utf8::encode_utf8(key).len() <= MAX_KEY_LEN
    &&& forall|i: int| 0 <= i < key.len() ==> key[i] != '/' && key[i] != '\0'
    &&& key != seq!['.']
    &&& key != seq!['.', '.']
}

/// Whether a text can be the path of a store: it holds no NUL character.
pub open spec fn spec_valid_path(path: Seq<char>) -> bool {
    forall|i: int| 0 <= i < path.len() ==> path[i] != '\0'
}

/// Whether a text can be the key of an entry.
pub fn is_valid_key(key: &str) -> (b: bool)
    ensures
        b == spec_valid_key(key@),
{
    let bytes = key.as_bytes().len();
    if bytes == 0 || bytes > MAX_KEY_LEN {
        return false;
    }
    let n = key.unicode_len();
    let mut i: usize = 0;
    while i < n
        invariant
            i <= n,
            n == key@.len(),
            forall|j: int| 0 <= j < i ==> key@[j] != '/' && key@[j] != '\0',
        decreases n - i,
    {
        let c = key.get_char(i);
        if c == '/' || c == '\0' {
            return false;
        }
        i = i + 1;
    }
    if n == 1 && key.get_char(0) == '.' {
        assert(key@ =~= seq!['.']);
        return false;
    }
    if n == 2 && key.get_char(0) == '.' && key.get_char(1) == '.' {
        assert(key@ =~= seq!['.', '.']);
        return false;
    }
    assert(key@ != seq!['.']) by {
        if key@ == seq!['.'] {
            assert(key@.len() == 1 && key@[0] == '.');
        }
    }
    assert(key@ != seq!['.', '.']) by {
        if key@ == seq!['.', '.'] {
            assert(key@.len() == 2 && key@[0] == '.' && key@[1] == '.');
        }
    }
    true
}

/// Whether a text can be the path of a store.
pub fn is_valid_path(path: &str) -> (b: bool)
    ensures
        b == spec_valid_path(path@),
{
    let n = path.unicode_len();
    let mut i: usize = 0;
    while i < n
        invariant
            i <= n,
            n == path@.len(),
            forall|j: int| 0 <= j < i ==> path@[j] != '\0',
        decreases n - i,
    {
        if path.get_char(i) == '\0' {
            return false;
        }
        i = i + 1;
    }
    true
}

/// One node of a directory, as whoever read the directory found it.
pub struct Entry {
    /// The name of the node.
    pub name: String,
    /// What the node holds where it is a regular file, and `None` where it
    /// is anything else.
    pub content: Option<Vec<u8>>,
}

/// What a content is: its bytes, where there is one.
pub open spec fn spec_content(content: Option<Vec<u8>>) -> Option<Seq<u8>> {
    match content {
        Some(bytes) => Some(bytes@),
        None => None,
    }
}

impl Entry {
    /// The node as a store holds it when it has just been opened: unlocked.
    pub open spec fn spec_slot(self) -> SlotView {
        SlotView {
            name: self.name@,
            content: spec_content(self.content),
            lock: LockState::Unlocked,
        }
    }
}

/// One node of the directory of a store.
pub struct SlotView {
    /// The name of the node.
    pub name: Seq<char>,
    /// The bytes of the node where it is a regular file.
    pub content: Option<Seq<u8>>,
    /// The lock of the key that is the name of the node.
    pub lock: LockState,
}

impl SlotView {
    /// Whether the node is an entry of the store: its name is a valid key
    /// and its content is a valid image file.
    pub open spec fn spec_live(self) -> bool {
        &&& spec_valid_key(self.name)
        &&& self.content is Some
        &&& spec_valid_file(self.content->0)
    }
}

/// What a store is: the path of its root and the nodes under the root, in
/// the order of the directory.
pub struct DBView {
    pub root: Seq<char>,
    pub slots: Seq<SlotView>,
}

impl DBView {
    /// No two nodes have the same name, and every shared lock has a reader.
    pub open spec fn wf(self) -> bool {
        &&& spec_distinct(self.slots)
        &&& forall|i: int| 0 <= i < self.slots.len() ==> (#[trigger] self.slots[i]).lock.wf()
    }

    /// Whether a node has the given name.
    pub open spec fn spec_has(self, key: Seq<char>) -> bool {
        exists|i: int| 0 <= i < self.slots.len() && (#[trigger] self.slots[i]).name == key
    }

    /// The place of the node with the given name, where there is one.
    pub open spec fn spec_position(self, key: Seq<char>) -> int {
        choose|i: int| 0 <= i < self.slots.len() && (#[trigger] self.slots[i]).name == key
    }

    /// The node with the given name, where there is one.
    pub open spec fn spec_slot(self, key: Seq<char>) -> SlotView {
        self.slots[self.spec_position(key)]
    }

    /// Whether the store has an entry under the given key.
    pub open spec fn spec_has_entry(self, key: Seq<char>) -> bool {
        self.spec_has(key) && self.spec_slot(key).spec_live()
    }

    /// Whether a handle is open for the given key.
    pub open spec fn spec_is_locked(self, key: Seq<char>) -> bool {
        self.spec_has(key) && self.spec_slot(key).lock.spec_is_locked()
    }

    /// The store with the node at place `i` replaced.
    pub open spec fn spec_with_slot(self, i: int, slot: SlotView) -> DBView {
        DBView { slots: self.slots.update(i, slot), ..self }
    }

    /// Whether a regular file has the given name.
    pub open spec fn spec_has_file(self, key: Seq<char>) -> bool {
        self.spec_has(key) && self.spec_slot(key).content is Some
    }

    /// What `get` does: the store afterwards, and the handle or the error.
    ///
    /// A key that is no file name is an invalid key. A key under which
    /// there is no regular file does not exist. A file that holds no image
    /// is an invalid file. Where the lock cannot be had the key is locked,
    /// and the store stays as it is in all these cases. Else the lock is
    /// taken and the handle holds the image of the file.
    pub open spec fn spec_get(self, key: Seq<char>, editable: bool) -> (
        DBView,
        Result<HandleView, Error>,
    ) {
        if !spec_valid_key(key) {
            (self, Err(Error::Sys(ImagedStatus::IMAGED_ERR_INVALID_KEY)))
        } else if !self.spec_has_file(key) {
            (self, Err(Error::Sys(ImagedStatus::IMAGED_ERR_FILE_DOES_NOT_EXIST)))
        } else if !spec_valid_file(self.spec_slot(key).content->0) {
            (self, Err(Error::Sys(ImagedStatus::IMAGED_ERR_INVALID_FILE)))
        } else {
            let slot = self.spec_slot(key);
            match slot.lock.spec_acquire(editable) {
                None => (self, Err(Error::Sys(ImagedStatus::IMAGED_ERR_LOCKED))),
                Some(lock) => (
                    self.spec_with_slot(self.spec_position(key), SlotView { lock, ..slot }),
                    Ok(
                        HandleView {
                            key,
                            editable,
                            image: spec_file_image(slot.content->0, Ownership::StoreMapped),
                        },
                    ),
                ),
            }
        }
    }

    /// What `set` does: the store afterwards, and the handle or the error.
    ///
    /// A key that is no file name is an invalid key. Where a node of that
    /// name is no regular file, no file can be created. Where a handle is
    /// open for the key, the key is locked. The store stays as it is in
    /// these cases. Else the file of the image stands under the key, in the
    /// place of the old file or behind all other nodes, and is locked for
    /// the editable handle that is returned.
    pub open spec fn spec_set(self, key: Seq<char>, image: ImageView) -> (
        DBView,
        Result<HandleView, Error>,
    ) {
        let slot = SlotView {
            name: key,
            content: Some(spec_file(image.meta, image.data)),
            lock: LockState::ExclusiveLocked,
        };
        let handle = HandleView {
            key,
            editable: true,
            image: ImageView { ownership: Ownership::StoreMapped, ..image },
        };
        if !spec_valid_key(key) {
            (self, Err(Error::Sys(ImagedStatus::IMAGED_ERR_INVALID_KEY)))
        } else if !self.spec_has(key) {
            (DBView { slots: self.slots.push(slot), ..self }, Ok(handle))
        } else if self.spec_slot(key).content is None {
            (self, Err(Error::Sys(ImagedStatus::IMAGED_ERR_CANNOT_CREATE_FILE)))
        } else if self.spec_slot(key).lock.spec_is_locked() {
            (self, Err(Error::Sys(ImagedStatus::IMAGED_ERR_LOCKED)))
        } else {
            (self.spec_with_slot(self.spec_position(key), slot), Ok(handle))
        }
    }

    /// What `close` does: the store afterwards, and whether the handle was
    /// one of this store.
    ///
    /// Where no regular file has the name of the handle's key, the file
    /// does not exist; where the lock of the key is not held as the handle
    /// would hold it, the handle is not of this store. The store stays as
    /// it is in these cases. Else the lock is given back, and the file of an
    /// editable handle becomes the file of the handle's image.
    pub open spec fn spec_close(self, handle: HandleView) -> (DBView, Result<(), Error>) {
        if !self.spec_has_file(handle.key) {
            (self, Err(Error::Sys(ImagedStatus::IMAGED_ERR_FILE_DOES_NOT_EXIST)))
        } else {
            let slot = self.spec_slot(handle.key);
            match slot.lock.spec_release(handle.editable) {
                None => (self, Err(Error::Sys(ImagedStatus::IMAGED_ERR))),
                Some(lock) => (
                    self.spec_with_slot(
                        self.spec_position(handle.key),
                        SlotView {
                            name: slot.name,
                            content: if handle.editable {
                                Some(spec_file(handle.image.meta, handle.image.data))
                            } else {
                                slot.content
                            },
                            lock,
                        },
                    ),
                    Ok(()),
                ),
            }
        }
    }

    /// What `remove` does: the store afterwards, and whether a file was
    /// removed.
    ///
    /// A key that is no file name is an invalid key. A key under which
    /// there is no regular file does not exist. Where a handle is open for
    /// the key, the key is locked. The store stays as it is in these cases.
    /// Else the node of the key is gone, and the other nodes keep their
    /// order.
    pub open spec fn spec_remove(self, key: Seq<char>) -> (DBView, Result<(), Error>) {
        if !spec_valid_key(key) {
            (self, Err(Error::Sys(ImagedStatus::IMAGED_ERR_INVALID_KEY)))
        } else if !self.spec_has_file(key) {
            (self, Err(Error::Sys(ImagedStatus::IMAGED_ERR_FILE_DOES_NOT_EXIST)))
        } else if self.spec_slot(key).lock.spec_is_locked() {
            (self, Err(Error::Sys(ImagedStatus::IMAGED_ERR_LOCKED)))
        } else {
            (DBView { slots: self.slots.remove(self.spec_position(key)), ..self }, Ok(()))
        }
    }

    /// The keys of the entries of the store, in the order of the directory.
    pub open spec fn spec_keys(self) -> Seq<Seq<char>> {
        spec_live_keys(self.slots)
    }
}

/// The names of the nodes that are entries, in the order of the nodes.
pub open spec fn spec_live_keys(slots: Seq<SlotView>) -> Seq<Seq<char>>
    decreases slots.len(),
{
    if slots.len() == 0 {
        Seq::empty()
    } else if slots.last().spec_live() {
        spec_live_keys(slots.drop_last()).push(slots.last().name)
    } else {
        spec_live_keys(slots.drop_last())
    }
}

/// What a handle is: the key that it was opened for, whether it was opened
/// for editing, and the image of the file as the handle sees it.
pub struct HandleView {
    pub key: Seq<char>,
    pub editable: bool,
    pub image: ImageView,
}

/// Handle is one open access to the image of a key. The key stays locked
/// until the handle is given back to the store with [`DB::close`].
pub struct Handle {
    key: String,
    editable: bool,
    image: Image,
}

impl View for Handle {
    type V = HandleView;

    closed spec fn view(&self) -> HandleView {
        HandleView { key: self.key@, editable: self.editable, image: self.image@ }
    }
}

impl Handle {
    /// The image of a handle is well formed.
    pub open spec fn wf(&self) -> bool {
        self@.image.wf()
    }

    /// Get the underlying image. What is changed in the image of an
    /// editable handle reaches the store when the handle is closed; what is
    /// changed in the image of a read-only handle never does.
    pub fn image(&mut self) -> (image: &mut Image)
        ensures
            image@ == old(self)@.image,
            final(self)@ == (HandleView { image: final(image)@, ..old(self)@ }),
    {
        &mut self.image
    }

    /// The key that the handle was opened for.
    pub fn key(&self) -> (key: &str)
        ensures
            key@ == self@.key,
    {
        self.key.as_str()
    }

    /// Whether the handle was opened for editing.
    pub fn is_editable(&self) -> (b: bool)
        ensures
            b == self@.editable,
    {
        self.editable
    }
}

/// No two nodes have the same name.
pub open spec fn spec_distinct(slots: Seq<SlotView>) -> bool {
    forall|i: int, j: int|
        0 <= i < j < slots.len() ==> (#[trigger] slots[i]).name != (#[trigger] slots[j]).name
}

/// In a store, a name is found at one place only.
pub proof fn lemma_position(db: DBView, key: Seq<char>, i: int)
    requires
        db.wf(),
        0 <= i < db.slots.len(),
        db.slots[i].name == key,
    ensures
        db.spec_has(key),
        db.spec_position(key) == i,
        db.spec_slot(key) == db.slots[i],
{
    let j = db.spec_position(key);
    if i < j {
        assert(db.slots[i].name != db.slots[j].name);
    } else if j < i {
        assert(db.slots[j].name != db.slots[i].name);
    }
}

/// DB is a store of images under one root.
pub struct DB {
    root: String,
    names: Vec<String>,
    contents: Vec<Option<Vec<u8>>>,
    locks: Vec<LockState>,
}

impl View for DB {
    type V = DBView;

    closed spec fn view(&self) -> DBView {
        DBView {
            root: self.root@,
            slots: Seq::new(
                self.names@.len(),
                |i: int|
                    SlotView {
                        name: self.names@[i]@,
                        content: spec_content(self.contents@[i]),
                        lock: self.locks@[i],
                    },
            ),
        }
    }
}

impl DB {
    /// The invariant of every store: see [`DBView::wf`].
    pub closed spec fn wf(&self) -> bool {
        &&& self.names@.len() == self.contents@.len()
        &&& self.names@.len() == self.locks@.len()
        &&& self@.wf()
    }

    /// What `wf` says of the store as its users see it.
    pub proof fn lemma_wf(&self)
        requires
            self.wf(),
        ensures
            self@.wf(),
    {
    }

    /// The place of the node with the given name.
    fn find(&self, key: &String) -> (r: Option<usize>)
        requires
            self.wf(),
        ensures
            match r {
                Some(i) => {
                    &&& i < self@.slots.len()
                    &&& self@.slots[i as int].name == key@
                    &&& self@.spec_has(key@)
                    &&& self@.spec_position(key@) == i
                },
                None => !self@.spec_has(key@),
            },
    {
        let mut i: usize = 0;
        while i < self.names.len()
            invariant
                self.wf(),
                i <= self.names@.len(),
                forall|j: int| 0 <= j < i ==> (#[trigger] self@.slots[j]).name != key@,
            decreases self.names@.len() - i,
        {
            if self.names[i] == *key {
                proof {
                    lemma_position(self@, key@, i as int);
                }
                return Some(i);
            }
            i = i + 1;
        }
        None
    }

    /// Open a store at the given path. `listing` is what the directory at
    /// that path holds, or `None` where the directory can neither be made
    /// nor read.
    ///
    /// Fails with `InvalidPath` where the path is no valid text for a file
    /// name, and else with `CannotOpenDB` where there is no listing or the
    /// listing names a node twice.
    pub fn open(path: &str, listing: Option<Vec<Entry>>) -> (r: Result<DB, Error>)
        ensures
            match r {
                Ok(db) => {
                    &&& spec_valid_path(path@)
                    &&& listing is Some
                    &&& db.wf()
                    &&& db@.root == path@
                    &&& db@.slots == listing->0@.map_values(|e: Entry| e.spec_slot())
                },
                Err(e) => {
                    &&& !spec_valid_path(path@) ==> e == Error::InvalidPath
                    &&& spec_valid_path(path@) ==> e == Error::CannotOpenDB && (listing is None
                        || !spec_distinct(listing->0@.map_values(|e: Entry| e.spec_slot())))
                },
            },
    {
        if !is_valid_path(path) {
            return Err(Error::InvalidPath);
        }
        let entries = match listing {
            Some(entries) => entries,
            None => {
                return Err(Error::CannotOpenDB);
            },
        };
        let ghost slots = entries@.map_values(|e: Entry| e.spec_slot());
        let mut db = DB {
            root: path.to_owned(),
            names: Vec::new(),
            contents: Vec::new(),
            locks: Vec::new(),
        };
        let mut i: usize = 0;
        while i < entries.len()
            invariant
                i <= entries@.len(),
                listing == Some(entries),
                spec_valid_path(path@),
                slots == entries@.map_values(|e: Entry| e.spec_slot()),
                db.wf(),
                db@.root == path@,
                db@.slots == slots.take(i as int),
            decreases entries@.len() - i,
        {
            let entry = &entries[i];
            match db.find(&entry.name) {
                Some(j) => {
                    proof {
                        assert(slots[j as int] == slots.take(i as int)[j as int]);
                        assert(slots[i as int] == entries@[i as int].spec_slot());
                        assert(slots[j as int].name == slots[i as int].name);
                    }
                    return Err(Error::CannotOpenDB);
                },
                None => {},
            }
            let content = match &entry.content {
                Some(bytes) => Some(slice_to_vec(bytes.as_slice())),
                None => None,
            };
            let ghost before = db@;
            db.names.push(entry.name.clone());
            db.contents.push(content);
            db.locks.push(LockState::Unlocked);
            proof {
                assert(db@.slots =~= before.slots.push(slots[i as int]));
                assert(slots.take(i + 1) =~= slots.take(i as int).push(slots[i as int]));
                assert forall|a: int, b: int| 0 <= a < b < db@.slots.len() implies (
                #[trigger] db@.slots[a]).name != (#[trigger] db@.slots[b]).name by {
                    if b == i {
                        assert(before.slots[a].name != slots[i as int].name);
                    } else {
                        assert(before.slots[a].name != before.slots[b].name);
                    }
                }
            }
            i = i + 1;
        }
        assert(slots.take(entries@.len() as int) =~= slots);
        Ok(db)
    }

    /// The path of the root of the store.
    pub fn root(&self) -> (path: &str)
        ensures
            path@ == self@.root,
    {
        self.root.as_str()
    }

    /// The bytes of the file of a key, where a regular file has that name:
    /// what is to be found on disk under the key.
    pub fn file(&self, key: &str) -> (r: Option<&Vec<u8>>)
        requires
            self.wf(),
        ensures
            match r {
                Some(bytes) => self@.spec_has(key@) && self@.spec_slot(key@).content == Some(
                    bytes@,
                ),
                None => !self@.spec_has(key@) || self@.spec_slot(key@).content is None,
            },
    {
        let name = key.to_owned();
        match self.find(&name) {
            None => None,
            Some(i) => match &self.contents[i] {
                Some(bytes) => Some(bytes),
                None => None,
            },
        }
    }

    /// Check if a key is in use: whether a handle is open for it.
    pub fn is_locked(&self, key: &str) -> (b: bool)
        requires
            self.wf(),
        ensures
            b == self@.spec_is_locked(key@),
    {
        let name = key.to_owned();
        match self.find(&name) {
            None => false,
            Some(i) => self.locks[i].is_locked(),
        }
    }

    /// Check if a key is a valid imgd file: whether the store has an entry
    /// under the key.
    pub fn file_is_valid(&self, key: &str) -> (b: bool)
        requires
            self.wf(),
        ensures
            b == self@.spec_has_entry(key@),
    {
        if !is_valid_key(key) {
            return false;
        }
        let name = key.to_owned();
        match self.find(&name) {
            None => false,
            Some(i) => match &self.contents[i] {
                Some(bytes) => is_valid_file(bytes.as_slice()),
                None => false,
            },
        }
    }

    /// Puts a content and a lock in the place of those of node `i`.
    fn put(&mut self, i: usize, content: Option<Vec<u8>>, lock: LockState)
        requires
            old(self).wf(),
            i < old(self)@.slots.len(),
            lock.wf(),
        ensures
            final(self).wf(),
            final(self)@ == old(self)@.spec_with_slot(
                i as int,
                SlotView {
                    name: old(self)@.slots[i as int].name,
                    content: spec_content(content),
                    lock,
                },
            ),
    {
        let ghost before = self@;
        self.contents.set(i, content);
        self.locks.set(i, lock);
        proof {
            let after = before.spec_with_slot(
                i as int,
                SlotView {
                    name: before.slots[i as int].name,
                    content: spec_content(content),
                    lock,
                },
            );
            assert(self@.slots =~= after.slots);
            lemma_with_slot_wf(before, i as int, after.slots[i as int]);
        }
    }

    /// Puts a lock in the place of that of node `i`.
    fn put_lock(&mut self, i: usize, lock: LockState)
        requires
            old(self).wf(),
            i < old(self)@.slots.len(),
            lock.wf(),
        ensures
            final(self).wf(),
            final(self)@ == old(self)@.spec_with_slot(
                i as int,
                SlotView { lock, ..old(self)@.slots[i as int] },
            ),
    {
        let ghost before = self@;
        self.locks.set(i, lock);
        proof {
            let after = before.spec_with_slot(
                i as int,
                SlotView { lock, ..before.slots[i as int] },
            );
            assert(self@.slots =~= after.slots);
            lemma_with_slot_wf(before, i as int, after.slots[i as int]);
        }
    }

    /// Get a key, `editable` determines whether or not the pixels can be
    /// edited. What happens is told by [`DBView::spec_get`].
    pub fn get(&mut self, key: &str, editable: bool) -> (r: Result<Handle, Error>)
        requires
            old(self).wf(),
        ensures
            final(self).wf(),
            match r {
                Ok(handle) => handle.wf() && old(self)@.spec_get(key@, editable) == (
                    final(self)@,
                    Ok::<HandleView, Error>(handle@),
                ),
                Err(e) => old(self)@.spec_get(key@, editable) == (
                    final(self)@,
                    Err::<HandleView, Error>(e),
                ),
            },
    {
        if !is_valid_key(key) {
            return Err(Error::Sys(ImagedStatus::IMAGED_ERR_INVALID_KEY));
        }
        let name = key.to_owned();
        let i = match self.find(&name) {
            Some(i) => i,
            None => {
                return Err(Error::Sys(ImagedStatus::IMAGED_ERR_FILE_DOES_NOT_EXIST));
            },
        };
        let image = match &self.contents[i] {
            None => {
                return Err(Error::Sys(ImagedStatus::IMAGED_ERR_FILE_DOES_NOT_EXIST));
            },
            Some(bytes) => match Image::from_file(bytes.as_slice(), Ownership::StoreMapped) {
                None => {
                    return Err(Error::Sys(ImagedStatus::IMAGED_ERR_INVALID_FILE));
                },
                Some(image) => image,
            },
        };
        match self.locks[i].acquire(editable) {
            None => Err(Error::Sys(ImagedStatus::IMAGED_ERR_LOCKED)),
            Some(lock) => {
                proof {
                    crate::lock::lemma_release_acquired(self@.slots[i as int].lock, editable);
                }
                self.put_lock(i, lock);
                Ok(Handle { key: name, editable, image })
            },
        }
    }

    /// Set a key: the image becomes the file under the key. What happens is
    /// told by [`DBView::spec_set`].
    pub fn set(&mut self, key: &str, image: &Image) -> (r: Result<Handle, Error>)
        requires
            old(self).wf(),
            image.wf(),
        ensures
            final(self).wf(),
            match r {
                Ok(handle) => handle.wf() && old(self)@.spec_set(key@, image@) == (
                    final(self)@,
                    Ok::<HandleView, Error>(handle@),
                ),
                Err(e) => old(self)@.spec_set(key@, image@) == (
                    final(self)@,
                    Err::<HandleView, Error>(e),
                ),
            },
    {
        if !is_valid_key(key) {
            return Err(Error::Sys(ImagedStatus::IMAGED_ERR_INVALID_KEY));
        }
        let name = key.to_owned();
        let ghost before = self@;
        match self.find(&name) {
            None => {
                self.names.push(name.clone());
                self.contents.push(Some(image.to_file()));
                self.locks.push(LockState::ExclusiveLocked);
                proof {
                    let slot = SlotView {
                        name: key@,
                        content: Some(spec_file(image@.meta, image@.data)),
                        lock: LockState::ExclusiveLocked,
                    };
                    assert(self@.slots =~= before.slots.push(slot));
                    lemma_push_wf(before, slot);
                }
            },
            Some(i) => {
                if self.contents[i].is_none() {
                    return Err(Error::Sys(ImagedStatus::IMAGED_ERR_CANNOT_CREATE_FILE));
                }
                if self.locks[i].is_locked() {
                    return Err(Error::Sys(ImagedStatus::IMAGED_ERR_LOCKED));
                }
                self.put(i, Some(image.to_file()), LockState::ExclusiveLocked);
            },
        }
        Ok(
            Handle {
                key: name,
                editable: true,
                image: image.clone().with_ownership(Ownership::StoreMapped),
            },
        )
    }

    /// Set a key using metadata and the image data. Without data the image
    /// is all zero bytes.
    ///
    /// Fails as [`Image::new`] and [`Image::new_with_data`] do where no
    /// image can be made of the metadata and the data, and leaves the store
    /// as it is then. Else it does what `set` does with that image.
    pub fn set_raw(&mut self, key: &str, meta: Meta, data: Option<&[u8]>) -> (r: Result<
        Handle,
        Error,
    >)
        requires
            old(self).wf(),
        ensures
            final(self).wf(),
            !meta.spec_fits() ==> r is Err && r->Err_0 == Error::NullPointer && final(self)@
                == old(self)@,
            meta.spec_fits() && data is Some && data->0@.len() != meta.spec_total_bytes() ==> r
                is Err && r->Err_0 == Error::IncorrectImageType && final(self)@ == old(self)@,
            meta.spec_fits() && (data is Some ==> data->0@.len() == meta.spec_total_bytes())
                ==> ({
                let image = ImageView {
                    meta,
                    data: match data {
                        Some(bytes) => bytes@,
                        None => Seq::new(meta.spec_total_bytes(), |i: int| 0u8),
                    },
                    ownership: Ownership::Owned,
                };
                match r {
                    Ok(handle) => handle.wf() && old(self)@.spec_set(key@, image) == (
                        final(self)@,
                        Ok::<HandleView, Error>(handle@),
                    ),
                    Err(e) => old(self)@.spec_set(key@, image) == (
                        final(self)@,
                        Err::<HandleView, Error>(e),
                    ),
                }
            }),
    {
        let made = match data {
            None => Image::new(meta),
            Some(bytes) => Image::new_with_data(meta, slice_to_vec(bytes)),
        };
        match made {
            Err(e) => Err(e),
            Ok(image) => self.set(key, &image),
        }
    }

    /// Gives a handle back to the store. What happens is told by
    /// [`DBView::spec_close`].
    pub fn close(&mut self, handle: Handle) -> (r: Result<(), Error>)
        requires
            old(self).wf(),
            handle.wf(),
        ensures
            final(self).wf(),
            old(self)@.spec_close(handle@) == (final(self)@, r),
    {
        let i = match self.find(&handle.key) {
            Some(i) => i,
            None => {
                return Err(Error::Sys(ImagedStatus::IMAGED_ERR_FILE_DOES_NOT_EXIST));
            },
        };
        if self.contents[i].is_none() {
            return Err(Error::Sys(ImagedStatus::IMAGED_ERR_FILE_DOES_NOT_EXIST));
        }
        proof {
            assert(self@.slots[i as int].lock.wf());
        }
        match self.locks[i].release(handle.editable) {
            None => Err(Error::Sys(ImagedStatus::IMAGED_ERR)),
            Some(lock) => {
                if handle.editable {
                    self.put(i, Some(handle.image.to_file()), lock);
                } else {
                    self.put_lock(i, lock);
                }
                Ok(())
            },
        }
    }

    /// Remove a key. What happens is told by [`DBView::spec_remove`].
    pub fn remove(&mut self, key: &str) -> (r: Result<(), Error>)
        requires
            old(self).wf(),
        ensures
            final(self).wf(),
            old(self)@.spec_remove(key@) == (final(self)@, r),
    {
        if !is_valid_key(key) {
            return Err(Error::Sys(ImagedStatus::IMAGED_ERR_INVALID_KEY));
        }
        let name = key.to_owned();
        let i = match self.find(&name) {
            Some(i) => i,
            None => {
                return Err(Error::Sys(ImagedStatus::IMAGED_ERR_FILE_DOES_NOT_EXIST));
            },
        };
        if self.contents[i].is_none() {
            return Err(Error::Sys(ImagedStatus::IMAGED_ERR_FILE_DOES_NOT_EXIST));
        }
        if self.locks[i].is_locked() {
            return Err(Error::Sys(ImagedStatus::IMAGED_ERR_LOCKED));
        }
        let ghost before = self@;
        self.names.remove(i);
        self.contents.remove(i);
        self.locks.remove(i);
        proof {
            assert(self@.slots =~= before.slots.remove(i as int));
            lemma_remove_wf(before, i as int);
        }
        Ok(())
    }

    /// Destroy all imgd files at the DB's root: gives up the store and
    /// returns the keys of its entries, in the order of the directory. They
    /// name the files that are to go.
    pub fn destroy(self) -> (r: Result<Vec<String>, Error>)
        requires
            self.wf(),
        ensures
            r is Ok,
            r->Ok_0@.map_values(|s: String| s@) == self@.spec_keys(),
    {
        let mut keys: Vec<String> = Vec::new();
        let mut i: usize = 0;
        proof {
            assert(self@.slots.take(0) =~= Seq::<SlotView>::empty());
        }
        while i < self.names.len()
            invariant
                self.wf(),
                i <= self.names@.len(),
                keys@.map_values(|s: String| s@) == spec_live_keys(self@.slots.take(i as int)),
            decreases self.names@.len() - i,
        {
            let live = is_valid_key(self.names[i].as_str()) && match &self.contents[i] {
                Some(bytes) => is_valid_file(bytes.as_slice()),
                None => false,
            };
            proof {
                let now = self@.slots.take(i + 1);
                assert(now.drop_last() =~= self@.slots.take(i as int));
                assert(now.last() == self@.slots[i as int]);
            }
            if live {
                let ghost before = keys@.map_values(|s: String| s@);
                keys.push(self.names[i].clone());
                assert(keys@.map_values(|s: String| s@) =~= before.push(
                    self@.slots[i as int].name,
                ));
            }
            i = i + 1;
        }
        assert(self@.slots.take(self.names@.len() as int) =~= self@.slots);
        Ok(keys)
    }

    /// The number of nodes under the root.
    pub fn nodes(&self) -> (n: usize)
        requires
            self.wf(),
        ensures
            n == self@.slots.len(),
    {
        self.names.len()
    }

    /// The name of node `i`.
    pub fn node_name(&self, i: usize) -> (name: &str)
        requires
            self.wf(),
            i < self@.slots.len(),
        ensures
            name@ == self@.slots[i as int].name,
    {
        self.names[i].as_str()
    }

    /// The bytes of node `i`, where it is a regular file.
    pub fn node_content(&self, i: usize) -> (content: Option<&Vec<u8>>)
        requires
            self.wf(),
            i < self@.slots.len(),
        ensures
            match content {
                Some(bytes) => self@.slots[i as int].content == Some(bytes@),
                None => self@.slots[i as int].content is None,
            },
    {
        match &self.contents[i] {
            Some(bytes) => Some(bytes),
            None => None,
        }
    }

    /// Remove all image locks. This is for the recovery after a crash: the
    /// handles that were open must not be used any more.
    pub fn reset_locks(&mut self)
        requires
            old(self).wf(),
        ensures
            final(self).wf(),
            final(self)@ == spec_reset_locks(old(self)@),
    {
        let mut i: usize = 0;
        while i < self.locks.len()
            invariant
                self.wf(),
                i <= self.locks@.len(),
                self@.root == old(self)@.root,
                self@.slots.len() == old(self)@.slots.len(),
                forall|j: int|
                    0 <= j < i ==> #[trigger] self@.slots[j] == (SlotView {
                        lock: LockState::Unlocked,
                        ..old(self)@.slots[j]
                    }),
                forall|j: int|
                    i <= j < self@.slots.len() ==> #[trigger] self@.slots[j] == old(self)@.slots[j],
            decreases self.locks@.len() - i,
        {
            let ghost before = self@;
            self.locks.set(i, LockState::Unlocked);
            proof {
                assert forall|k: int| 0 <= k < self@.slots.len() implies #[trigger] self@.slots[k]
                    == (if k == i {
                    SlotView { lock: LockState::Unlocked, ..before.slots[k] }
                } else {
                    before.slots[k]
                }) by {}
                assert forall|a: int, b: int| 0 <= a < b < self@.slots.len() implies (
                #[trigger] self@.slots[a]).name != (#[trigger] self@.slots[b]).name by {
                    assert(before.slots[a].name != before.slots[b].name);
                }
                assert forall|k: int| 0 <= k < self@.slots.len() implies (
                #[trigger] self@.slots[k]).lock.wf() by {
                    assert(before.slots[k].lock.wf());
                }
            }
            i = i + 1;
        }
        assert(self@.slots =~= spec_reset_locks(old(self)@).slots);
    }
}

/// A store stays well formed when a node is replaced by one of the same
/// name, and every name is then found where it was.
pub proof fn lemma_with_slot_wf(db: DBView, i: int, slot: SlotView)
    requires
        db.wf(),
        0 <= i < db.slots.len(),
        slot.name == db.slots[i].name,
        slot.lock.wf(),
    ensures
        db.spec_with_slot(i, slot).wf(),
        forall|key: Seq<char>| #[trigger]
            db.spec_with_slot(i, slot).spec_has(key) == db.spec_has(key),
        forall|key: Seq<char>|
            db.spec_has(key) ==> #[trigger] db.spec_with_slot(i, slot).spec_position(key)
                == db.spec_position(key),
{
    let after = db.spec_with_slot(i, slot);
    assert forall|a: int, b: int| 0 <= a < b < after.slots.len() implies (
    #[trigger] after.slots[a]).name != (#[trigger] after.slots[b]).name by {
        assert(db.slots[a].name != db.slots[b].name);
    }
    assert forall|k: int| 0 <= k < after.slots.len() implies (#[trigger] after.slots[k]).lock.wf() by {
        assert(db.slots[k].lock.wf());
    }
    assert forall|key: Seq<char>| #[trigger] after.spec_has(key) == db.spec_has(key) by {
        if db.spec_has(key) {
            let k = db.spec_position(key);
            assert(after.slots[k].name == key);
        }
        if after.spec_has(key) {
            let k = after.spec_position(key);
            assert(db.slots[k].name == key);
        }
    }
    assert forall|key: Seq<char>| db.spec_has(key) implies #[trigger] after.spec_position(key)
        == db.spec_position(key) by {
        let k = db.spec_position(key);
        assert(after.slots[k].name == key);
        lemma_position(after, key, k);
    }
}

/// A store stays well formed when a node with a new name is put behind
/// the others.
pub proof fn lemma_push_wf(db: DBView, slot: SlotView)
    requires
        db.wf(),
        !db.spec_has(slot.name),
        slot.lock.wf(),
    ensures
        (DBView { slots: db.slots.push(slot), ..db }).wf(),
{
    let after = DBView { slots: db.slots.push(slot), ..db };
    assert forall|a: int, b: int| 0 <= a < b < after.slots.len() implies (
    #[trigger] after.slots[a]).name != (#[trigger] after.slots[b]).name by {
        if b == db.slots.len() {
            assert(db.slots[a].name != slot.name);
        } else {
            assert(db.slots[a].name != db.slots[b].name);
        }
    }
    assert forall|k: int| 0 <= k < after.slots.len() implies (#[trigger] after.slots[k]).lock.wf() by {
        if k < db.slots.len() {
            assert(db.slots[k].lock.wf());
        }
    }
}

/// A store stays well formed when a node is taken away.
pub proof fn lemma_remove_wf(db: DBView, i: int)
    requires
        db.wf(),
        0 <= i < db.slots.len(),
    ensures
        (DBView { slots: db.slots.remove(i), ..db }).wf(),
{
    let after = DBView { slots: db.slots.remove(i), ..db };
    assert forall|a: int, b: int| 0 <= a < b < after.slots.len() implies (
    #[trigger] after.slots[a]).name != (#[trigger] after.slots[b]).name by {
        let a0 = if a < i {
            a
        } else {
            a + 1
        };
        let b0 = if b < i {
            b
        } else {
            b + 1
        };
        assert(db.slots[a0].name != db.slots[b0].name);
    }
    assert forall|k: int| 0 <= k < after.slots.len() implies (#[trigger] after.slots[k]).lock.wf() by {
        let k0 = if k < i {
            k
        } else {
            k + 1
        };
        assert(db.slots[k0].lock.wf());
    }
}

/// The store with every key unlocked.
pub open spec fn spec_reset_locks(db: DBView) -> DBView {
    DBView {
        slots: db.slots.map_values(|s: SlotView| SlotView { lock: LockState::Unlocked, ..s }),
        ..db
    }
}

} // verus!
