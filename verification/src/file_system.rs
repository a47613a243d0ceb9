//! The file table and the open-handle table, with the seven file operations
//! (create, delete, rename, open, close, read, write) and their validation
//! rules.
//!
//! The executable state lives in [`FileSystem`]; its mathematical model is
//! [`FsState`], a pair of sequences. Every operation is specified by a pure
//! transition function on [`FsState`], and the executable method is proved to
//! implement exactly that transition.

use vstd::prelude::*;
use vstd::string::StrSliceExecFns;

verus! {

/// Upper bound on the number of simultaneously open files.
pub const MAX_OPEN_FILES: usize = 5;

/// Result code of every operation of the service. Each variant corresponds to
/// one integer status code of the wire protocol; see [`SystemResult::code`].
#[derive(Clone, Copy, Debug, PartialEq, Eq, Structural)]
pub enum SystemResult {
    Success,
    Exit,
    FileAlreadyExists,
    FileDoesntExist,
    PermissionDenied,
    ReachedMaxOpenFiles,
    FileNotOpen,
    FileAlreadyOpen,
    OpenInInvalidMode,
    MiscellaneousError,
    ClientAlreadyExists,
    ClientDoesntExist,
    WrongCredentials,
    ClosedConnection,
}

impl SystemResult {
    /// The integer status code sent on the wire for this result.
    pub fn code(self) -> (c: i32)
        ensures
            c == result_code(self),
    {
        match self {
            SystemResult::Success => 0,
            SystemResult::Exit => -1,
            SystemResult::FileAlreadyExists => -4,
            SystemResult::FileDoesntExist => -5,
            SystemResult::PermissionDenied => -6,
            SystemResult::ReachedMaxOpenFiles => -7,
            SystemResult::FileNotOpen => -8,
            SystemResult::FileAlreadyOpen => -9,
            SystemResult::OpenInInvalidMode => -10,
            SystemResult::MiscellaneousError => -11,
            SystemResult::ClientAlreadyExists => -12,
            SystemResult::ClientDoesntExist => -13,
            SystemResult::WrongCredentials => -14,
            SystemResult::ClosedConnection => -30,
        }
    }

    /// The result named by an integer status code, if any code names it.
    pub fn from_code(c: i32) -> (r: Option<SystemResult>)
        ensures
            r == result_from_code(c as int),
    {
        match c {
            0 => Some(SystemResult::Success),
            -1 => Some(SystemResult::Exit),
            -4 => Some(SystemResult::FileAlreadyExists),
            -5 => Some(SystemResult::FileDoesntExist),
            -6 => Some(SystemResult::PermissionDenied),
            -7 => Some(SystemResult::ReachedMaxOpenFiles),
            -8 => Some(SystemResult::FileNotOpen),
            -9 => Some(SystemResult::FileAlreadyOpen),
            -10 => Some(SystemResult::OpenInInvalidMode),
            -11 => Some(SystemResult::MiscellaneousError),
            -12 => Some(SystemResult::ClientAlreadyExists),
            -13 => Some(SystemResult::ClientDoesntExist),
            -14 => Some(SystemResult::WrongCredentials),
            -30 => Some(SystemResult::ClosedConnection),
            _ => None,
        }
    }
}

/// The integer status code of each result.
pub open spec fn result_code(r: SystemResult) -> int {
    match r {
        SystemResult::Success => 0,
        SystemResult::Exit => -1,
        SystemResult::FileAlreadyExists => -4,
        SystemResult::FileDoesntExist => -5,
        SystemResult::PermissionDenied => -6,
        SystemResult::ReachedMaxOpenFiles => -7,
        SystemResult::FileNotOpen => -8,
        SystemResult::FileAlreadyOpen => -9,
        SystemResult::OpenInInvalidMode => -10,
        SystemResult::MiscellaneousError => -11,
        SystemResult::ClientAlreadyExists => -12,
        SystemResult::ClientDoesntExist => -13,
        SystemResult::WrongCredentials => -14,
        SystemResult::ClosedConnection => -30,
    }
}

/// Inverse of [`result_code`], partial on the integers.
pub open spec fn result_from_code(c: int) -> Option<SystemResult> {
    if c == 0 {
        Some(SystemResult::Success)
    } else if c == -1 {
        Some(SystemResult::Exit)
    } else if c == -4 {
        Some(SystemResult::FileAlreadyExists)
    } else if c == -5 {
        Some(SystemResult::FileDoesntExist)
    } else if c == -6 {
        Some(SystemResult::PermissionDenied)
    } else if c == -7 {
        Some(SystemResult::ReachedMaxOpenFiles)
    } else if c == -8 {
        Some(SystemResult::FileNotOpen)
    } else if c == -9 {
        Some(SystemResult::FileAlreadyOpen)
    } else if c == -10 {
        Some(SystemResult::OpenInInvalidMode)
    } else if c == -11 {
        Some(SystemResult::MiscellaneousError)
    } else if c == -12 {
        Some(SystemResult::ClientAlreadyExists)
    } else if c == -13 {
        Some(SystemResult::ClientDoesntExist)
    } else if c == -14 {
        Some(SystemResult::WrongCredentials)
    } else if c == -30 {
        Some(SystemResult::ClosedConnection)
    } else {
        None
    }
}

/// Status codes name results uniquely in both directions.
pub proof fn lemma_result_code_round_trip(r: SystemResult)
    ensures
        result_from_code(result_code(r)) == Some(r),
{
}

/// A 2-bit capability: bit 0 grants writing, bit 1 grants reading.
#[derive(Clone, Copy, Debug, PartialEq, Eq, Structural)]
pub enum Permission {
    NoAccess,
    Write,
    Read,
    ReadWrite,
}

/// The 2-bit mask of a permission (bit 0 = write, bit 1 = read).
pub open spec fn perm_mask(p: Permission) -> u8 {
    match p {
        Permission::NoAccess => 0,
        Permission::Write => 1,
        Permission::Read => 2,
        Permission::ReadWrite => 3,
    }
}

/// Whether `p` grants read access (bit 1 of the mask).
pub open spec fn grants_read(p: Permission) -> bool {
    p == Permission::Read || p == Permission::ReadWrite
}

/// Whether `p` grants write access (bit 0 of the mask).
pub open spec fn grants_write(p: Permission) -> bool {
    p == Permission::Write || p == Permission::ReadWrite
}

/// The compatibility test of the permission model: a requested permission is
/// honoured when it shares at least one capability bit with the granted one.
/// A `NoAccess` request is compatible with nothing.
pub open spec fn compatible(requested: Permission, granted: Permission) -> bool {
    (grants_read(requested) && grants_read(granted)) || (grants_write(requested)
        && grants_write(granted))
}

/// The boolean characterization [`compatible`] agrees with the bitwise test
/// `perm_mask(requested) & perm_mask(granted) != 0` that the executable code
/// computes.
pub proof fn lemma_compatible_is_mask_overlap(requested: Permission, granted: Permission)
    ensures
        compatible(requested, granted) <==> perm_mask(requested) & perm_mask(granted) != 0,
{
    let x = perm_mask(requested);
    let y = perm_mask(granted);
    assert((x & y != 0) <==> (((x == 2 || x == 3) && (y == 2 || y == 3)) || ((x == 1 || x == 3)
        && (y == 1 || y == 3)))) by (bit_vector)
        requires
            x <= 3 && y <= 3,
    ;
}

impl Permission {
    /// The 2-bit mask of this permission.
    pub fn mask(self) -> (m: u8)
        ensures
            m == perm_mask(self),
    {
        match self {
            Permission::NoAccess => 0,
            Permission::Write => 1,
            Permission::Read => 2,
            Permission::ReadWrite => 3,
        }
    }
}

/// Mathematical model of one file record: the unique name, the stored
/// content, and the two permission masks.
#[verifier::ext_equal]
pub struct FileRecord {
    pub name: Seq<char>,
    pub content: Seq<char>,
    pub owner_permission: Permission,
    pub others_permission: Permission,
}

/// Mathematical model of one open-file handle.
#[verifier::ext_equal]
pub struct HandleRecord {
    pub file_name: Seq<char>,
    pub permission: Permission,
}

/// Mathematical model of the whole file service state: the file table and the
/// ordered open-handle table. A descriptor is a position in `open_files`.
#[verifier::ext_equal]
pub struct FsState {
    pub files: Seq<FileRecord>,
    pub open_files: Seq<HandleRecord>,
}

impl FsState {
    /// Well-formedness: file names are unique, at most [`MAX_OPEN_FILES`]
    /// handles exist, every handle refers to an existing file, and no file is
    /// open through two handles.
    pub open spec fn wf(self) -> bool {
        &&& forall|i: int, j: int|
            0 <= i < j < self.files.len() ==> #[trigger] self.files[i].name
                != #[trigger] self.files[j].name
        &&& self.open_files.len() <= MAX_OPEN_FILES
        &&& forall|i: int|
            0 <= i < self.open_files.len() ==> self.file_exists(
                #[trigger] self.open_files[i].file_name,
            )
        &&& forall|i: int, j: int|
            0 <= i < j < self.open_files.len() ==> #[trigger] self.open_files[i].file_name
                != #[trigger] self.open_files[j].file_name
    }

    /// Whether a file of this name is in the table.
    pub open spec fn file_exists(self, name: Seq<char>) -> bool {
        exists|i: int| 0 <= i < self.files.len() && #[trigger] self.files[i].name == name
    }

    /// The position of the file of this name (meaningful under
    /// [`FsState::file_exists`] and [`FsState::wf`]).
    pub open spec fn file_index(self, name: Seq<char>) -> int {
        choose|i: int| 0 <= i < self.files.len() && #[trigger] self.files[i].name == name
    }

    /// The record of the file of this name.
    pub open spec fn file_at(self, name: Seq<char>) -> FileRecord {
        self.files[self.file_index(name)]
    }

    /// The stored content of the file of this name.
    pub open spec fn content_of(self, name: Seq<char>) -> Seq<char> {
        self.file_at(name).content
    }

    /// Whether a handle on this file name is in the open-handle table.
    pub open spec fn is_open(self, name: Seq<char>) -> bool {
        exists|i: int|
            0 <= i < self.open_files.len() && #[trigger] self.open_files[i].file_name == name
    }

    /// The descriptor of the handle on this file name (meaningful under
    /// [`FsState::is_open`] and [`FsState::wf`]).
    pub open spec fn handle_index(self, name: Seq<char>) -> int {
        choose|i: int|
            0 <= i < self.open_files.len() && #[trigger] self.open_files[i].file_name == name
    }

    /// The handle on this file name.
    pub open spec fn handle_of(self, name: Seq<char>) -> HandleRecord {
        self.open_files[self.handle_index(name)]
    }

    /// In a well-formed state, a position holding `name` is the unique one
    /// that [`FsState::file_index`] denotes.
    pub proof fn lemma_file_index_is(self, name: Seq<char>, i: int)
        requires
            self.wf(),
            0 <= i < self.files.len(),
            self.files[i].name == name,
        ensures
            self.file_exists(name),
            self.file_index(name) == i,
    {
        let j = self.file_index(name);
        if i < j {
            assert(self.files[i].name != self.files[j].name);
        } else if j < i {
            assert(self.files[j].name != self.files[i].name);
        }
    }

    /// In a well-formed state, a descriptor holding `name` is the unique one
    /// that [`FsState::handle_index`] denotes.
    pub proof fn lemma_handle_index_is(self, name: Seq<char>, i: int)
        requires
            self.wf(),
            0 <= i < self.open_files.len(),
            self.open_files[i].file_name == name,
        ensures
            self.is_open(name),
            self.handle_index(name) == i,
    {
        let j = self.handle_index(name);
        if i < j {
            assert(self.open_files[i].file_name != self.open_files[j].file_name);
        } else if j < i {
            assert(self.open_files[j].file_name != self.open_files[i].file_name);
        }
    }

    /// Transition of `create`: a new record is appended, unless the name is
    /// taken, in which case the table is left unchanged.
    pub open spec fn spec_add_file(self, f: FileRecord) -> (FsState, SystemResult) {
        if self.file_exists(f.name) {
            (self, SystemResult::FileAlreadyExists)
        } else {
            (
                FsState { files: self.files.push(f), open_files: self.open_files },
                SystemResult::Success,
            )
        }
    }

    /// Transition of `delete`: an existing record is removed, force-closing
    /// its open handle first if it has one.
    pub open spec fn spec_delete_file(self, name: Seq<char>) -> (FsState, SystemResult) {
        if !self.file_exists(name) {
            (self, SystemResult::FileDoesntExist)
        } else {
            let remaining_handles = if self.is_open(name) {
                self.open_files.remove(self.handle_index(name))
            } else {
                self.open_files
            };
            (
                FsState {
                    files: self.files.remove(self.file_index(name)),
                    open_files: remaining_handles,
                },
                SystemResult::Success,
            )
        }
    }

    /// Transition of `rename`: the record keeps content and permissions under
    /// the new name, and an open handle on the old name follows it in place.
    pub open spec fn spec_rename_file(self, name: Seq<char>, new_name: Seq<char>) -> (
        FsState,
        SystemResult,
    ) {
        if !self.file_exists(name) {
            (self, SystemResult::FileDoesntExist)
        } else if self.file_exists(new_name) {
            (self, SystemResult::FileAlreadyExists)
        } else {
            let i = self.file_index(name);
            let renamed = FileRecord {
                name: new_name,
                content: self.files[i].content,
                owner_permission: self.files[i].owner_permission,
                others_permission: self.files[i].others_permission,
            };
            let handles = if self.is_open(name) {
                let j = self.handle_index(name);
                self.open_files.update(
                    j,
                    HandleRecord { file_name: new_name, permission: self.open_files[j].permission },
                )
            } else {
                self.open_files
            };
            (FsState { files: self.files.update(i, renamed), open_files: handles }, SystemResult::Success)
        }
    }

    /// Transition of `open`, with its checks in order: table full, file
    /// exists, file already open, requested permission compatible with the
    /// file's owner permission.
    pub open spec fn spec_open_file(self, name: Seq<char>, open_permission: Permission) -> (
        FsState,
        SystemResult,
    ) {
        if self.open_files.len() == MAX_OPEN_FILES {
            (self, SystemResult::ReachedMaxOpenFiles)
        } else if !self.file_exists(name) {
            (self, SystemResult::FileDoesntExist)
        } else if self.is_open(name) {
            (self, SystemResult::FileAlreadyOpen)
        } else if !compatible(open_permission, self.file_at(name).owner_permission) {
            (self, SystemResult::PermissionDenied)
        } else {
            (
                FsState {
                    files: self.files,
                    open_files: self.open_files.push(
                        HandleRecord { file_name: name, permission: open_permission },
                    ),
                },
                SystemResult::Success,
            )
        }
    }

    /// Transition of `close`: the handle at position `fd` is removed; a
    /// descriptor above the table's capacity is a miscellaneous error, one
    /// within capacity but past the live count is `FileNotOpen`.
    pub open spec fn spec_close_file(self, fd: int) -> (FsState, SystemResult) {
        if fd < 0 || fd > MAX_OPEN_FILES {
            (self, SystemResult::MiscellaneousError)
        } else if fd >= self.open_files.len() {
            (self, SystemResult::FileNotOpen)
        } else {
            (
                FsState { files: self.files, open_files: self.open_files.remove(fd) },
                SystemResult::Success,
            )
        }
    }

    /// Result of `read`: the first `len` characters of the content of the
    /// file open at `fd`. The state never changes; the returned sequence is
    /// empty unless the result is `Success`. The requested length is checked
    /// against the stored content before the handle's read permission.
    pub open spec fn spec_read_file(self, fd: int, len: int) -> (SystemResult, Seq<char>) {
        if !(0 <= fd < self.open_files.len()) {
            (SystemResult::FileNotOpen, Seq::empty())
        } else {
            let h = self.open_files[fd];
            if self.content_of(h.file_name).len() < len {
                (SystemResult::MiscellaneousError, Seq::empty())
            } else if !grants_read(h.permission) {
                (SystemResult::OpenInInvalidMode, Seq::empty())
            } else {
                (SystemResult::Success, self.content_of(h.file_name).take(len))
            }
        }
    }

    /// Transition of `write`: the stored content of the file open at `fd` is
    /// replaced (not appended) by the first `len` characters of `content`,
    /// with `len` clamped down to `content`'s length.
    pub open spec fn spec_write_to_file(self, fd: int, content: Seq<char>, len: int) -> (
        FsState,
        SystemResult,
    ) {
        if !(0 <= fd < self.open_files.len()) {
            (self, SystemResult::FileNotOpen)
        } else {
            let h = self.open_files[fd];
            if !grants_write(h.permission) {
                (self, SystemResult::OpenInInvalidMode)
            } else {
                let clamped = if content.len() < len {
                    content.len() as int
                } else {
                    len
                };
                let i = self.file_index(h.file_name);
                let rec = FileRecord {
                    name: self.files[i].name,
                    content: content.take(clamped),
                    owner_permission: self.files[i].owner_permission,
                    others_permission: self.files[i].others_permission,
                };
                (
                    FsState { files: self.files.update(i, rec), open_files: self.open_files },
                    SystemResult::Success,
                )
            }
        }
    }

    /// `create` preserves well-formedness.
    pub proof fn lemma_add_file_preserves_wf(self, f: FileRecord)
        requires
            self.wf(),
        ensures
            self.spec_add_file(f).0.wf(),
    {
        let s2 = self.spec_add_file(f).0;
        if !self.file_exists(f.name) {
            assert forall|i: int, j: int|
                0 <= i < j < s2.files.len() implies #[trigger] s2.files[i].name
                != #[trigger] s2.files[j].name by {
                if j == self.files.len() {
                    assert(s2.files[i] == self.files[i]);
                    assert(s2.files[j] == f);
                    assert(!(self.files[i].name == f.name));
                } else {
                    assert(s2.files[i] == self.files[i]);
                    assert(s2.files[j] == self.files[j]);
                }
            }
            assert forall|i: int|
                0 <= i < s2.open_files.len() implies s2.file_exists(
                #[trigger] s2.open_files[i].file_name,
            ) by {
                let nm = self.open_files[i].file_name;
                assert(self.file_exists(nm));
                let k = choose|k: int| 0 <= k < self.files.len() && #[trigger] self.files[k].name == nm;
                assert(s2.files[k].name == nm);
            }
        }
    }

    /// `delete` preserves well-formedness.
    pub proof fn lemma_delete_file_preserves_wf(self, name: Seq<char>)
        requires
            self.wf(),
        ensures
            self.spec_delete_file(name).0.wf(),
    {
        let s2 = self.spec_delete_file(name).0;
        if self.file_exists(name) {
            let fi = self.file_index(name);
            self.lemma_file_index_is(name, fi);
            self.files.remove_ensures(fi);
            if self.is_open(name) {
                let hi = self.handle_index(name);
                self.lemma_handle_index_is(name, hi);
                self.open_files.remove_ensures(hi);
            }
            assert forall|i: int, j: int|
                0 <= i < j < s2.files.len() implies #[trigger] s2.files[i].name
                != #[trigger] s2.files[j].name by {
                let i0 = if i < fi { i } else { i + 1 };
                let j0 = if j < fi { j } else { j + 1 };
                assert(s2.files[i] == self.files[i0]);
                assert(s2.files[j] == self.files[j0]);
            }
            assert forall|i: int, j: int|
                0 <= i < j < s2.open_files.len() implies #[trigger] s2.open_files[i].file_name
                != #[trigger] s2.open_files[j].file_name by {
                if self.is_open(name) {
                    let hi = self.handle_index(name);
                    let i0 = if i < hi { i } else { i + 1 };
                    let j0 = if j < hi { j } else { j + 1 };
                    assert(s2.open_files[i] == self.open_files[i0]);
                    assert(s2.open_files[j] == self.open_files[j0]);
                }
            }
            assert forall|i: int|
                0 <= i < s2.open_files.len() implies s2.file_exists(
                #[trigger] s2.open_files[i].file_name,
            ) by {
                let i0 = if self.is_open(name) {
                    let hi = self.handle_index(name);
                    if i < hi {
                        i
                    } else {
                        i + 1
                    }
                } else {
                    i
                };
                let nm = self.open_files[i0].file_name;
                assert(s2.open_files[i].file_name == nm);
                // The surviving handle is not the one on `name`, so its file
                // sits at an index other than `fi` and survives the removal.
                if self.is_open(name) {
                    let hi = self.handle_index(name);
                    if i0 != hi {
                        assert(nm != name);
                    }
                } else {
                    if nm == name {
                        self.lemma_handle_index_is(name, i0);
                        assert(false);
                    }
                }
                let k = choose|k: int| 0 <= k < self.files.len() && #[trigger] self.files[k].name == nm;
                self.lemma_file_index_is(nm, k);
                assert(k != fi);
                let k2 = if k < fi { k } else { k - 1 };
                assert(s2.files[k2].name == nm);
            }
        }
    }

    /// `rename` preserves well-formedness.
    pub proof fn lemma_rename_file_preserves_wf(self, name: Seq<char>, new_name: Seq<char>)
        requires
            self.wf(),
        ensures
            self.spec_rename_file(name, new_name).0.wf(),
    {
        let s2 = self.spec_rename_file(name, new_name).0;
        if self.file_exists(name) && !self.file_exists(new_name) {
            let fi = self.file_index(name);
            self.lemma_file_index_is(name, fi);
            assert forall|i: int, j: int|
                0 <= i < j < s2.files.len() implies #[trigger] s2.files[i].name
                != #[trigger] s2.files[j].name by {
                if i != fi && j != fi {
                    assert(s2.files[i] == self.files[i]);
                    assert(s2.files[j] == self.files[j]);
                } else if i == fi {
                    assert(s2.files[i].name == new_name);
                    assert(s2.files[j] == self.files[j]);
                    assert(!(self.files[j].name == new_name));
                } else {
                    assert(s2.files[j].name == new_name);
                    assert(s2.files[i] == self.files[i]);
                    assert(!(self.files[i].name == new_name));
                }
            }
            if self.is_open(name) {
                let hi = self.handle_index(name);
                self.lemma_handle_index_is(name, hi);
                assert forall|i: int, j: int|
                    0 <= i < j < s2.open_files.len() implies #[trigger] s2.open_files[i].file_name
                    != #[trigger] s2.open_files[j].file_name by {
                    if i != hi && j != hi {
                        assert(s2.open_files[i] == self.open_files[i]);
                        assert(s2.open_files[j] == self.open_files[j]);
                    } else {
                        let other = if i == hi { j } else { i };
                        assert(s2.open_files[other] == self.open_files[other]);
                        let nm = self.open_files[other].file_name;
                        assert(self.file_exists(nm));
                        if nm == new_name {
                            assert(false);
                        }
                    }
                }
            }
            assert forall|i: int|
                0 <= i < s2.open_files.len() implies s2.file_exists(
                #[trigger] s2.open_files[i].file_name,
            ) by {
                let nm = s2.open_files[i].file_name;
                if self.is_open(name) && i == self.handle_index(name) {
                    assert(nm == new_name);
                    assert(s2.files[fi].name == new_name);
                } else {
                    assert(s2.open_files[i] == self.open_files[i]);
                    let nm0 = self.open_files[i].file_name;
                    assert(self.file_exists(nm0));
                    let k = choose|k: int|
                        0 <= k < self.files.len() && #[trigger] self.files[k].name == nm0;
                    self.lemma_file_index_is(nm0, k);
                    if k == fi {
                        // The handle at `i` would be on `name` itself, yet it
                        // is not the updated one; uniqueness rules that out.
                        assert(nm0 == name);
                        self.lemma_handle_index_is(name, i);
                        assert(false);
                    }
                    assert(s2.files[k].name == nm0);
                }
            }
        }
    }

    /// `open` preserves well-formedness; in particular the handle table never
    /// grows past [`MAX_OPEN_FILES`].
    pub proof fn lemma_open_file_preserves_wf(self, name: Seq<char>, open_permission: Permission)
        requires
            self.wf(),
        ensures
            self.spec_open_file(name, open_permission).0.wf(),
    {
        let s2 = self.spec_open_file(name, open_permission).0;
        if self.open_files.len() != MAX_OPEN_FILES && self.file_exists(name) && !self.is_open(name)
            && compatible(open_permission, self.file_at(name).owner_permission) {
            assert forall|i: int, j: int|
                0 <= i < j < s2.open_files.len() implies #[trigger] s2.open_files[i].file_name
                != #[trigger] s2.open_files[j].file_name by {
                if j == self.open_files.len() {
                    assert(s2.open_files[i] == self.open_files[i]);
                    assert(s2.open_files[j].file_name == name);
                    if self.open_files[i].file_name == name {
                        self.lemma_handle_index_is(name, i);
                        assert(false);
                    }
                } else {
                    assert(s2.open_files[i] == self.open_files[i]);
                    assert(s2.open_files[j] == self.open_files[j]);
                }
            }
            assert forall|i: int|
                0 <= i < s2.open_files.len() implies s2.file_exists(
                #[trigger] s2.open_files[i].file_name,
            ) by {
                if i == self.open_files.len() {
                    assert(s2.open_files[i].file_name == name);
                } else {
                    assert(s2.open_files[i] == self.open_files[i]);
                    assert(self.file_exists(self.open_files[i].file_name));
                }
            }
        }
    }

    /// `close` preserves well-formedness.
    pub proof fn lemma_close_file_preserves_wf(self, fd: int)
        requires
            self.wf(),
        ensures
            self.spec_close_file(fd).0.wf(),
    {
        let s2 = self.spec_close_file(fd).0;
        if 0 <= fd <= MAX_OPEN_FILES && fd < self.open_files.len() {
            self.open_files.remove_ensures(fd);
            assert forall|i: int, j: int|
                0 <= i < j < s2.open_files.len() implies #[trigger] s2.open_files[i].file_name
                != #[trigger] s2.open_files[j].file_name by {
                let i0 = if i < fd { i } else { i + 1 };
                let j0 = if j < fd { j } else { j + 1 };
                assert(s2.open_files[i] == self.open_files[i0]);
                assert(s2.open_files[j] == self.open_files[j0]);
            }
            assert forall|i: int|
                0 <= i < s2.open_files.len() implies s2.file_exists(
                #[trigger] s2.open_files[i].file_name,
            ) by {
                let i0 = if i < fd { i } else { i + 1 };
                assert(s2.open_files[i] == self.open_files[i0]);
                assert(self.file_exists(self.open_files[i0].file_name));
            }
        }
    }

    /// `write` preserves well-formedness.
    pub proof fn lemma_write_to_file_preserves_wf(self, fd: int, content: Seq<char>, len: int)
        requires
            self.wf(),
        ensures
            self.spec_write_to_file(fd, content, len).0.wf(),
    {
        let s2 = self.spec_write_to_file(fd, content, len).0;
        if 0 <= fd < self.open_files.len() && grants_write(self.open_files[fd].permission) {
            let nm = self.open_files[fd].file_name;
            assert(self.file_exists(nm));
            let i = self.file_index(nm);
            self.lemma_file_index_is(nm, i);
            assert forall|a: int, b: int|
                0 <= a < b < s2.files.len() implies #[trigger] s2.files[a].name
                != #[trigger] s2.files[b].name by {
                assert(s2.files[a].name == self.files[a].name);
                assert(s2.files[b].name == self.files[b].name);
            }
            assert forall|a: int|
                0 <= a < s2.open_files.len() implies s2.file_exists(
                #[trigger] s2.open_files[a].file_name,
            ) by {
                let nm0 = self.open_files[a].file_name;
                assert(self.file_exists(nm0));
                let k = choose|k: int| 0 <= k < self.files.len() && #[trigger] self.files[k].name == nm0;
                assert(s2.files[k].name == nm0);
            }
        }
    }
}

/// One file record of the table: a unique name, the content, and the two
/// permission masks set at creation.
pub struct _File {
    name: String,
    content: String,
    owner_permission: Permission,
    others_permission: Permission,
}

impl View for _File {
    type V = FileRecord;

    closed spec fn view(&self) -> FileRecord {
        FileRecord {
            name: self.name@,
            content: self.content@,
            owner_permission: self.owner_permission,
            others_permission: self.others_permission,
        }
    }
}

impl _File {
    /// Assembles a file record from its four fields.
    pub fn new(
        name: String,
        content: String,
        owner_permission: Permission,
        others_permission: Permission,
    ) -> (f: _File)
        ensures
            f@ == (FileRecord { name: name@, content: content@, owner_permission, others_permission }),
    {
        _File { name, content, owner_permission, others_permission }
    }
}

/// One open-file handle: the name of the open file and the permission the
/// open was granted with.
pub struct OpenFile {
    file_name: String,
    permission: Permission,
}

impl View for OpenFile {
    type V = HandleRecord;

    closed spec fn view(&self) -> HandleRecord {
        HandleRecord { file_name: self.file_name@, permission: self.permission }
    }
}

impl OpenFile {
    /// The permission this handle was opened with.
    pub fn permission(&self) -> (p: Permission)
        ensures
            p == self@.permission,
    {
        self.permission
    }
}

/// The file service state: the file table and the bounded open-handle table.
pub struct FileSystem {
    files: Vec<_File>,
    open_files: Vec<OpenFile>,
}

impl View for FileSystem {
    type V = FsState;

    closed spec fn view(&self) -> FsState {
        FsState {
            files: self.files@.map_values(|f: _File| f@),
            open_files: self.open_files@.map_values(|h: OpenFile| h@),
        }
    }
}

impl FileSystem {
    /// Well-formedness of the state; see [`FsState::wf`]. Established by
    /// [`FileSystem::new`] and preserved by every operation.
    pub open spec fn wf(&self) -> bool {
        self@.wf()
    }

    /// The empty file service: no files, no open handles.
    pub fn new() -> (fs: Self)
        ensures
            fs.wf(),
            fs@.files.len() == 0,
            fs@.open_files.len() == 0,
    {
        FileSystem { files: Vec::new(), open_files: Vec::new() }
    }

    /// Position of the file of this name in the file table, if it exists.
    fn find_file_index(&self, file_name: &String) -> (r: Option<usize>)
        ensures
            r is Some <==> self@.file_exists(file_name@),
            r matches Some(i) ==> 0 <= i < self@.files.len() && self@.files[i as int].name
                == file_name@,
    {
        let n = self.files.len();
        let mut i: usize = 0;
        while i < n
            invariant
                n == self.files.len(),
                i <= n,
                forall|j: int| 0 <= j < i ==> #[trigger] self@.files[j].name != file_name@,
            decreases n - i,
        {
            if self.files[i].name == *file_name {
                proof {
                    assert(self@.files[i as int].name == file_name@);
                }
                return Some(i);
            }
            i = i + 1;
        }
        None
    }

    /// Descriptor of the handle on this file name, if the file is open.
    fn find_handle_index(&self, file_name: &String) -> (r: Option<usize>)
        ensures
            r is Some <==> self@.is_open(file_name@),
            r matches Some(i) ==> 0 <= i < self@.open_files.len() && self@.open_files[
                i as int
            ].file_name == file_name@,
    {
        let n = self.open_files.len();
        let mut i: usize = 0;
        while i < n
            invariant
                n == self.open_files.len(),
                i <= n,
                forall|j: int| 0 <= j < i ==> #[trigger] self@.open_files[j].file_name != file_name@,
            decreases n - i,
        {
            if self.open_files[i].file_name == *file_name {
                proof {
                    assert(self@.open_files[i as int].file_name == file_name@);
                }
                return Some(i);
            }
            i = i + 1;
        }
        None
    }

    /// The record of an existing file. The name must be present in the table.
    pub fn get_file(&self, file_name: &String) -> (f: &_File)
        requires
            self.wf(),
            self@.file_exists(file_name@),
        ensures
            f@ == self@.file_at(file_name@),
    {
        let r = self.find_file_index(file_name);
        match r {
            Some(i) => {
                proof {
                    self@.lemma_file_index_is(file_name@, i as int);
                }
                &self.files[i]
            },
            None => {
                // The file exists by the precondition, so the search cannot
                // have missed it.
                proof {
                    assert(false);
                }
                unreached()
            },
        }
    }

    /// Whether a file of this name exists, and its record if it does.
    pub fn filename_exists(&self, file_name: &String) -> (r: Option<&_File>)
        requires
            self.wf(),
        ensures
            r is Some <==> self@.file_exists(file_name@),
            r matches Some(f) ==> f@ == self@.file_at(file_name@),
    {
        match self.find_file_index(file_name) {
            Some(i) => {
                proof {
                    self@.lemma_file_index_is(file_name@, i as int);
                }
                Some(&self.files[i])
            },
            None => None,
        }
    }

    /// Whether this file is open, and if so its descriptor and handle.
    pub fn file_is_open(&self, file: &_File) -> (r: Option<(usize, &OpenFile)>)
        requires
            self.wf(),
        ensures
            r is Some <==> self@.is_open(file@.name),
            r matches Some(p) ==> 0 <= p.0 < self@.open_files.len() && p.0
                == self@.handle_index(file@.name) && p.1@ == self@.handle_of(file@.name),
    {
        match self.find_handle_index(&file.name) {
            Some(i) => {
                proof {
                    self@.lemma_handle_index_is(file@.name, i as int);
                }
                Some((i, &self.open_files[i]))
            },
            None => None,
        }
    }

    /// The handle at descriptor `fd`, if that position is live.
    pub fn check_file_descriptor(&self, fd: usize) -> (r: Option<&OpenFile>)
        ensures
            r is Some <==> fd < self@.open_files.len(),
            r matches Some(h) ==> h@ == self@.open_files[fd as int],
    {
        if self.open_files.len() <= fd {
            return None;
        }
        Some(&self.open_files[fd])
    }

    /// Whether the handle at the live descriptor `fd` grants writing.
    pub fn check_writability(&self, fd: usize) -> (r: bool)
        requires
            fd < self@.open_files.len(),
        ensures
            r == grants_write(self@.open_files[fd as int].permission),
    {
        let p = self.open_files[fd].permission;
        let r = (p.mask() & Permission::Write.mask()) != 0;
        proof {
            let x = perm_mask(p);
            assert((x & 1 != 0) <==> (x == 1 || x == 3)) by (bit_vector)
                requires
                    x <= 3,
            ;
        }
        r
    }

    /// Whether the handle at the live descriptor `fd` grants reading.
    pub fn check_readability(&self, fd: usize) -> (r: bool)
        requires
            fd < self@.open_files.len(),
        ensures
            r == grants_read(self@.open_files[fd as int].permission),
    {
        let p = self.open_files[fd].permission;
        let r = (p.mask() & Permission::Read.mask()) != 0;
        proof {
            let x = perm_mask(p);
            assert((x & 2 != 0) <==> (x == 2 || x == 3)) by (bit_vector)
                requires
                    x <= 3,
            ;
        }
        r
    }

    /// The bitwise compatibility test between a requested permission and the
    /// file's owner permission; the file's others permission is not consulted.
    pub fn check_permission(&self, open_permission: &Permission, file: &_File) -> (r: bool)
        ensures
            r == compatible(*open_permission, file@.owner_permission),
    {
        let r = (open_permission.mask() & file.owner_permission.mask()) != 0;
        proof {
            lemma_compatible_is_mask_overlap(*open_permission, file@.owner_permission);
        }
        r
    }

    /// `create`: adds the record unless its name is taken, in which case the
    /// table is left unchanged and the collision is reported.
    pub fn add_file(&mut self, file: _File) -> (r: SystemResult)
        requires
            old(self).wf(),
        ensures
            final(self).wf(),
            final(self)@ == old(self)@.spec_add_file(file@).0,
            r == old(self)@.spec_add_file(file@).1,
    {
        match self.find_file_index(&file.name) {
            Some(_) => SystemResult::FileAlreadyExists,
            None => {
                self.files.push(file);
                proof {
                    lemma_map_view_push(old(self).files@, file);
                    assert(self@ =~= old(self)@.spec_add_file(file@).0);
                    old(self)@.lemma_add_file_preserves_wf(file@);
                }
                SystemResult::Success
            },
        }
    }

    /// `close`: removes the handle at position `fd`; every handle after it
    /// shifts down by one.
    pub fn close_file(&mut self, fd: usize) -> (r: SystemResult)
        requires
            old(self).wf(),
        ensures
            final(self).wf(),
            final(self)@ == old(self)@.spec_close_file(fd as int).0,
            r == old(self)@.spec_close_file(fd as int).1,
    {
        if fd > MAX_OPEN_FILES {
            return SystemResult::MiscellaneousError;
        }
        if fd >= self.open_files.len() {
            return SystemResult::FileNotOpen;
        }
        self.open_files.remove(fd);
        proof {
            lemma_map_view_remove(old(self).open_files@, fd as int);
            assert(self@ =~= old(self)@.spec_close_file(fd as int).0);
            old(self)@.lemma_close_file_preserves_wf(fd as int);
        }
        SystemResult::Success
    }

    /// `open`: appends a handle on the named file, after checking in order
    /// that the table is not full, the file exists, it is not already open,
    /// and the requested permission is compatible with the file's owner
    /// permission.
    pub fn open_file(&mut self, file_name: String, open_permission: Permission) -> (r: SystemResult)
        requires
            old(self).wf(),
        ensures
            final(self).wf(),
            final(self)@ == old(self)@.spec_open_file(file_name@, open_permission).0,
            r == old(self)@.spec_open_file(file_name@, open_permission).1,
    {
        if self.open_files.len() == MAX_OPEN_FILES {
            return SystemResult::ReachedMaxOpenFiles;
        }
        let fi = match self.find_file_index(&file_name) {
            Some(fi) => fi,
            None => {
                return SystemResult::FileDoesntExist;
            },
        };
        proof {
            self@.lemma_file_index_is(file_name@, fi as int);
        }
        if self.find_handle_index(&file_name).is_some() {
            return SystemResult::FileAlreadyOpen;
        }
        let compatible_with_owner = {
            let owner = self.files[fi].owner_permission;
            let r = (open_permission.mask() & owner.mask()) != 0;
            proof {
                lemma_compatible_is_mask_overlap(open_permission, self@.files[fi as int].owner_permission);
            }
            r
        };
        if !compatible_with_owner {
            return SystemResult::PermissionDenied;
        }
        self.open_files.push(OpenFile { file_name, permission: open_permission });
        proof {
            lemma_map_view_push(
                old(self).open_files@,
                OpenFile { file_name, permission: open_permission },
            );
            assert(self@ =~= old(self)@.spec_open_file(file_name@, open_permission).0);
            old(self)@.lemma_open_file_preserves_wf(file_name@, open_permission);
        }
        SystemResult::Success
    }

    /// `delete`: removes an existing record, force-closing its open handle
    /// first if it has one.
    pub fn delete_file(&mut self, file_name: String) -> (r: SystemResult)
        requires
            old(self).wf(),
        ensures
            final(self).wf(),
            final(self)@ == old(self)@.spec_delete_file(file_name@).0,
            r == old(self)@.spec_delete_file(file_name@).1,
    {
        let fi = match self.find_file_index(&file_name) {
            Some(fi) => fi,
            None => {
                return SystemResult::FileDoesntExist;
            },
        };
        proof {
            self@.lemma_file_index_is(file_name@, fi as int);
        }
        match self.find_handle_index(&file_name) {
            Some(hi) => {
                proof {
                    self@.lemma_handle_index_is(file_name@, hi as int);
                }
                self.open_files.remove(hi);
                proof {
                    lemma_map_view_remove(old(self).open_files@, hi as int);
                }
            },
            None => {},
        }
        self.files.remove(fi);
        proof {
            lemma_map_view_remove(old(self).files@, fi as int);
            assert(self@ =~= old(self)@.spec_delete_file(file_name@).0);
            old(self)@.lemma_delete_file_preserves_wf(file_name@);
        }
        SystemResult::Success
    }

    /// `rename`: the record keeps content and permissions under the new name;
    /// an open handle on the old name keeps its descriptor and permission and
    /// follows the file to the new name.
    pub fn rename_file(&mut self, file_name: String, new_file_name: String) -> (r: SystemResult)
        requires
            old(self).wf(),
        ensures
            final(self).wf(),
            final(self)@ == old(self)@.spec_rename_file(file_name@, new_file_name@).0,
            r == old(self)@.spec_rename_file(file_name@, new_file_name@).1,
    {
        let fi = match self.find_file_index(&file_name) {
            Some(fi) => fi,
            None => {
                return SystemResult::FileDoesntExist;
            },
        };
        if self.find_file_index(&new_file_name).is_some() {
            return SystemResult::FileAlreadyExists;
        }
        proof {
            self@.lemma_file_index_is(file_name@, fi as int);
        }
        match self.find_handle_index(&file_name) {
            Some(hi) => {
                proof {
                    self@.lemma_handle_index_is(file_name@, hi as int);
                }
                let h = &mut self.open_files[hi];
                h.file_name = new_file_name.clone();
                proof {
                    lemma_map_view_update(
                        old(self).open_files@,
                        hi as int,
                        self.open_files@[hi as int],
                    );
                }
            },
            None => {},
        }
        let f = &mut self.files[fi];
        f.name = new_file_name;
        proof {
            lemma_map_view_update(old(self).files@, fi as int, self.files@[fi as int]);
            assert(self@ =~= old(self)@.spec_rename_file(file_name@, new_file_name@).0);
            old(self)@.lemma_rename_file_preserves_wf(file_name@, new_file_name@);
        }
        SystemResult::Success
    }

    /// `read`: returns the first `len_to_read` characters of the content of
    /// the file open at `fd`. The state is never changed; no cursor is kept,
    /// and the requested length may not exceed the stored content's length.
    pub fn read_file(&mut self, fd: usize, len_to_read: usize) -> (r: (SystemResult, Option<String>))
        requires
            old(self).wf(),
        ensures
            *final(self) == *old(self),
            r.0 == old(self)@.spec_read_file(fd as int, len_to_read as int).0,
            r.1 is Some <==> r.0 == SystemResult::Success,
            r.1 matches Some(s) ==> s@ == old(self)@.spec_read_file(
                fd as int,
                len_to_read as int,
            ).1,
    {
        if self.open_files.len() <= fd {
            return (SystemResult::FileNotOpen, None);
        }
        let file_name = self.open_files[fd].file_name.clone();
        proof {
            assert(self@.file_exists(self@.open_files[fd as int].file_name));
        }
        let file = self.get_file(&file_name);
        let content_len = file.content.as_str().unicode_len();
        if content_len < len_to_read {
            return (SystemResult::MiscellaneousError, None);
        }
        let prefix = file.content.as_str().substring_char(0, len_to_read).to_owned();
        if !self.check_readability(fd) {
            return (SystemResult::OpenInInvalidMode, None);
        }
        (SystemResult::Success, Some(prefix))
    }

    /// `write`: replaces (never appends to) the stored content of the file
    /// open at `fd` with the first `len_to_write` characters of `content`,
    /// clamping `len_to_write` down to `content`'s length.
    pub fn write_to_file(&mut self, fd: usize, content: String, len_to_write: usize) -> (r:
        SystemResult)
        requires
            old(self).wf(),
        ensures
            final(self).wf(),
            final(self)@ == old(self)@.spec_write_to_file(
                fd as int,
                content@,
                len_to_write as int,
            ).0,
            r == old(self)@.spec_write_to_file(fd as int, content@, len_to_write as int).1,
    {
        if self.open_files.len() <= fd {
            return SystemResult::FileNotOpen;
        }
        if !self.check_writability(fd) {
            return SystemResult::OpenInInvalidMode;
        }
        let file_name = self.open_files[fd].file_name.clone();
        proof {
            assert(self@.file_exists(self@.open_files[fd as int].file_name));
        }
        let fi = match self.find_file_index(&file_name) {
            Some(fi) => fi,
            None => {
                // The handle's file exists by well-formedness.
                proof {
                    assert(false);
                }
                unreached()
            },
        };
        proof {
            self@.lemma_file_index_is(file_name@, fi as int);
        }
        let content_len = content.as_str().unicode_len();
        let clamped = if content_len < len_to_write {
            content_len
        } else {
            len_to_write
        };
        let new_content = content.as_str().substring_char(0, clamped).to_owned();
        let f = &mut self.files[fi];
        f.content = new_content;
        proof {
            lemma_map_view_update(old(self).files@, fi as int, self.files@[fi as int]);
            assert(self@ =~= old(self)@.spec_write_to_file(
                fd as int,
                content@,
                len_to_write as int,
            ).0);
            old(self)@.lemma_write_to_file_preserves_wf(fd as int, content@, len_to_write as int);
        }
        SystemResult::Success
    }
}

/// After a name is created and then deleted, opening that name reports
/// `FileDoesntExist` — whichever of the two create outcomes occurred, and
/// whatever permission the open requests. The handle table must not be full
/// at the start: a sixth concurrent open is refused before the name is even
/// looked up.
pub proof fn lemma_create_delete_open_fails(s: FsState, f: FileRecord, open_permission: Permission)
    requires
        s.wf(),
        s.open_files.len() < MAX_OPEN_FILES,
    ensures
        ({
            let s1 = s.spec_add_file(f).0;
            let s2 = s1.spec_delete_file(f.name).0;
            s2.spec_open_file(f.name, open_permission).1 == SystemResult::FileDoesntExist
        }),
{
    let s1 = s.spec_add_file(f).0;
    s.lemma_add_file_preserves_wf(f);
    assert(s1.file_exists(f.name)) by {
        if !s.file_exists(f.name) {
            assert(s1.files[s.files.len() as int].name == f.name);
        }
    }
    let s2 = s1.spec_delete_file(f.name).0;
    s1.lemma_delete_file_preserves_wf(f.name);
    let fi = s1.file_index(f.name);
    assert(0 <= fi < s1.files.len() && s1.files[fi].name == f.name);
    s1.files.remove_ensures(fi);
    assert forall|k: int| 0 <= k < s2.files.len() implies #[trigger] s2.files[k].name != f.name by {
        let k0 = if k < fi {
            k
        } else {
            k + 1
        };
        assert(s2.files[k] == s1.files[k0]);
        if s1.files[k0].name == f.name {
            s1.lemma_file_index_is(f.name, k0);
        }
    }
    assert(!s2.file_exists(f.name));
    assert(s1.open_files == s.open_files);
    if s1.is_open(f.name) {
        let hi = s1.handle_index(f.name);
        assert(0 <= hi < s1.open_files.len() && s1.open_files[hi].file_name == f.name);
        s1.open_files.remove_ensures(hi);
    }
    assert(s2.open_files.len() < MAX_OPEN_FILES);
}

/// The open-handle table of a well-formed state never holds more than
/// [`MAX_OPEN_FILES`] handles; together with the preservation lemmas of the
/// transitions, the bound holds after any sequence of operations.
pub proof fn lemma_open_count_bounded(s: FsState)
    requires
        s.wf(),
    ensures
        s.open_files.len() <= MAX_OPEN_FILES,
{
}

/// With the handle table full, a further open is refused with
/// `ReachedMaxOpenFiles` and changes nothing, before any other check.
pub proof fn lemma_open_when_full(s: FsState, name: Seq<char>, open_permission: Permission)
    requires
        s.wf(),
        s.open_files.len() == MAX_OPEN_FILES,
    ensures
        s.spec_open_file(name, open_permission) == (s, SystemResult::ReachedMaxOpenFiles),
{
}

/// Opening a file that is already open reports `FileAlreadyOpen` and changes
/// nothing. With a full handle table the open is instead refused as
/// `ReachedMaxOpenFiles`, so that case is excluded here.
pub proof fn lemma_open_already_open(s: FsState, name: Seq<char>, open_permission: Permission)
    requires
        s.wf(),
        s.is_open(name),
        s.open_files.len() < MAX_OPEN_FILES,
    ensures
        s.spec_open_file(name, open_permission) == (s, SystemResult::FileAlreadyOpen),
{
    let i = s.handle_index(name);
    assert(0 <= i < s.open_files.len() && s.open_files[i].file_name == name);
    assert(s.file_exists(name));
}

/// A read whose requested length exceeds the stored content's length reports
/// `MiscellaneousError` and yields nothing. (The state is unchanged by every
/// read: [`FileSystem::read_file`] never modifies it.)
pub proof fn lemma_read_overlong_rejected(s: FsState, fd: int, len: int)
    requires
        s.wf(),
        0 <= fd < s.open_files.len(),
        len > s.content_of(s.open_files[fd].file_name).len(),
    ensures
        s.spec_read_file(fd, len) == (SystemResult::MiscellaneousError, Seq::<char>::empty()),
{
}

/// A write through a live, writable handle succeeds and replaces the file's
/// content with `content.take(min(len, content.len()))`: an overstated length
/// is clamped down to the length of the supplied content.
pub proof fn lemma_write_clamps(s: FsState, fd: int, content: Seq<char>, len: int)
    requires
        s.wf(),
        0 <= fd < s.open_files.len(),
        grants_write(s.open_files[fd].permission),
    ensures
        s.spec_write_to_file(fd, content, len).1 == SystemResult::Success,
        s.spec_write_to_file(fd, content, len).0.content_of(s.open_files[fd].file_name)
            == content.take(
            if content.len() < len {
                content.len() as int
            } else {
                len
            },
        ),
{
    let nm = s.open_files[fd].file_name;
    assert(s.file_exists(nm));
    let i = s.file_index(nm);
    assert(0 <= i < s.files.len() && s.files[i].name == nm);
    let s2 = s.spec_write_to_file(fd, content, len).0;
    s.lemma_write_to_file_preserves_wf(fd, content, len);
    assert(s2.files[i].name == nm);
    s2.lemma_file_index_is(nm, i);
}

/// Renaming a file that is currently open succeeds, and the open handle
/// follows it: same descriptor, same permission, now on the new name; the old
/// name afterwards reports no file.
pub proof fn lemma_rename_keeps_handle(s: FsState, name: Seq<char>, new_name: Seq<char>)
    requires
        s.wf(),
        s.file_exists(name),
        !s.file_exists(new_name),
        s.is_open(name),
    ensures
        s.spec_rename_file(name, new_name).1 == SystemResult::Success,
        ({
            let s2 = s.spec_rename_file(name, new_name).0;
            &&& s2.is_open(new_name)
            &&& s2.handle_index(new_name) == s.handle_index(name)
            &&& s2.handle_of(new_name).permission == s.handle_of(name).permission
            &&& !s2.file_exists(name)
            &&& s2.file_exists(new_name)
        }),
{
    let s2 = s.spec_rename_file(name, new_name).0;
    s.lemma_rename_file_preserves_wf(name, new_name);
    let fi = s.file_index(name);
    assert(0 <= fi < s.files.len() && s.files[fi].name == name);
    let hi = s.handle_index(name);
    assert(0 <= hi < s.open_files.len() && s.open_files[hi].file_name == name);
    assert(s2.open_files[hi].file_name == new_name);
    s2.lemma_handle_index_is(new_name, hi);
    assert(name != new_name);
    assert forall|k: int| 0 <= k < s2.files.len() implies #[trigger] s2.files[k].name != name by {
        if k != fi {
            assert(s2.files[k] == s.files[k]);
            if s.files[k].name == name {
                s.lemma_file_index_is(name, k);
            }
        }
    }
    assert(s2.files[fi].name == new_name);
}

/// Taking views of every element commutes with appending one element.
proof fn lemma_map_view_push<T: View>(s: Seq<T>, x: T)
    ensures
        s.push(x).map_values(|t: T| t@) =~= s.map_values(|t: T| t@).push(x@),
{
}

/// Taking views of every element commutes with removing one element.
proof fn lemma_map_view_remove<T: View>(s: Seq<T>, i: int)
    requires
        0 <= i < s.len(),
    ensures
        s.remove(i).map_values(|t: T| t@) =~= s.map_values(|t: T| t@).remove(i),
{
    s.remove_ensures(i);
    s.map_values(|t: T| t@).remove_ensures(i);
}

/// Taking views of every element commutes with updating one element.
proof fn lemma_map_view_update<T: View>(s: Seq<T>, i: int, x: T)
    requires
        0 <= i < s.len(),
    ensures
        s.update(i, x).map_values(|t: T| t@) =~= s.map_values(|t: T| t@).update(i, x@),
{
}

} // verus!
