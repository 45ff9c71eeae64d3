//! The file descriptor table of a task and the checks that the file system
//! calls make on it. What is read and written is not held here: the table
//! knows of each open file only what decides a call.

use crate::error::{FAILURE, SUCCESS};
use crate::resource::first_empty_slot;
use crate::slots::{first_empty, install};
use vstd::prelude::*;

verus! {

/// What decides a call on an open file.
#[derive(Clone, Copy, Debug, PartialEq, Eq, Structural)]
pub struct OpenFile {
    pub readable: bool,
    pub writable: bool,
}

/// The file descriptor table of a task as a mathematical value.
pub struct FdView {
    /// By descriptor: the open file, or nothing for a free descriptor.
    pub files: Seq<Option<OpenFile>>,
    /// By descriptor: the path under which the file was opened.
    pub names: Seq<Option<Seq<char>>>,
}

impl FdView {
    /// Every descriptor has a place for a name.
    pub open spec fn wf(self) -> bool {
        self.names.len() == self.files.len() && self.files.len() <= isize::MAX
    }

    /// `fd` names an open file.
    pub open spec fn is_open(self, fd: usize) -> bool {
        fd < self.files.len() && self.files[fd as int] is Some
    }

    /// The table after a file was opened under `path`: the file has the lowest
    /// free descriptor, or a new one behind the others.
    pub open spec fn open(self, file: OpenFile, path: Seq<char>) -> FdView {
        let fd = first_empty(self.files);
        FdView { files: install(self.files, fd, file), names: install(self.names, fd, path) }
    }

    /// The table after descriptor `fd` was closed: the descriptor is free and
    /// has no name.
    pub open spec fn close(self, fd: usize) -> FdView {
        FdView {
            files: self.files.update(fd as int, None),
            names: self.names.update(fd as int, None),
        }
    }
}

/// The names of a table with each path as a sequence of characters.
pub open spec fn name_views(names: Seq<Option<String>>) -> Seq<Option<Seq<char>>> {
    Seq::new(
        names.len(),
        |i: int|
            match names[i] {
                Some(name) => Some(name@),
                None => None,
            },
    )
}

/// The file descriptor table of a task. It is made by [`FdTable::new`] and
/// changed by the functions of this library only, which keep it well formed.
pub struct FdTable {
    /// By descriptor: the open file, or nothing for a free descriptor.
    pub(crate) fd_table: Vec<Option<OpenFile>>,
    /// By descriptor: the path under which the file was opened.
    pub(crate) fd_name: Vec<Option<String>>,
}

impl View for FdTable {
    type V = FdView;

    open(crate) spec fn view(&self) -> FdView {
        FdView { files: self.fd_table@, names: name_views(self.fd_name@) }
    }
}

impl FdTable {
    /// The table is well formed when its view is.
    pub open spec fn wf(&self) -> bool {
        self@.wf()
    }

    /// A table without descriptors.
    pub fn new() -> (table: Self)
        ensures
            table.wf(),
            table@.files == Seq::<Option<OpenFile>>::empty(),
            table@.names == Seq::<Option<Seq<char>>>::empty(),
    {
        let table = FdTable { fd_table: Vec::new(), fd_name: Vec::new() };
        proof {
            assert(table@.names =~= Seq::empty());
        }
        table
    }

    /// By descriptor: the open file, or nothing for a free descriptor.
    pub fn fd_table(&self) -> (files: &Vec<Option<OpenFile>>)
        ensures
            files@ == self@.files,
    {
        &self.fd_table
    }

    /// By descriptor: the path under which the file was opened.
    pub fn fd_name(&self) -> (names: &Vec<Option<String>>)
        ensures
            name_views(names@) == self@.names,
    {
        &self.fd_name
    }
}

/// Enters the file that was opened under `path` into the table and returns
/// its descriptor: the lowest free one. `file` is what the file system made of
/// the path; where it found nothing, and where the table has no room, the call
/// returns -1 and changes nothing.
pub fn sys_open(table: &mut FdTable, file: Option<OpenFile>, path: String) -> (fd: isize)
    requires
        old(table).wf(),
    ensures
        final(table).wf(),
        fd == (if file is Some && first_empty(old(table)@.files) < isize::MAX {
            first_empty(old(table)@.files)
        } else {
            -1
        }),
        final(table)@ == (if fd >= 0 {
            old(table)@.open(file->0, path@)
        } else {
            old(table)@
        }),
{
    let file = match file {
        Some(file) => file,
        None => {
            return FAILURE;
        },
    };
    let fd = first_empty_slot(&table.fd_table);
    if fd >= isize::MAX as usize {
        return FAILURE;
    }
    if fd < table.fd_table.len() {
        table.fd_table[fd] = Some(file);
        table.fd_name[fd] = Some(path);
    } else {
        table.fd_table.push(Some(file));
        table.fd_name.push(Some(path));
    }
    proof {
        assert(table@.names =~= old(table)@.open(file, path@).names);
    }
    fd as isize
}

/// Closes descriptor `fd`. Returns 0, and -1 where `fd` names no open file.
pub fn sys_close(table: &mut FdTable, fd: usize) -> (code: isize)
    requires
        old(table).wf(),
    ensures
        final(table).wf(),
        code == (if old(table)@.is_open(fd) {
            0int
        } else {
            -1int
        }),
        final(table)@ == (if old(table)@.is_open(fd) {
            old(table)@.close(fd)
        } else {
            old(table)@
        }),
{
    if fd >= table.fd_table.len() {
        return FAILURE;
    }
    if table.fd_table[fd].is_none() {
        return FAILURE;
    }
    table.fd_table[fd] = None;
    table.fd_name[fd] = None;
    proof {
        assert(table@.names =~= old(table)@.close(fd).names);
    }
    SUCCESS
}

/// Whether the task may read from descriptor `fd`: 0 where `fd` names an open
/// file that is readable, and -1 where it does not. After a 0 the file is
/// read, and the call returns what the file reports.
pub fn sys_read(table: &FdTable, fd: usize) -> (code: isize)
    ensures
        code == (if table@.is_open(fd) && table@.files[fd as int]->0.readable {
            0int
        } else {
            -1int
        }),
{
    if fd >= table.fd_table.len() {
        return FAILURE;
    }
    match table.fd_table[fd] {
        Some(file) => if file.readable {
            SUCCESS
        } else {
            FAILURE
        },
        None => FAILURE,
    }
}

/// Whether the task may write to descriptor `fd`: 0 where `fd` names an open
/// file that is writable, and -1 where it does not. After a 0 the file is
/// written, and the call returns what the file reports.
pub fn sys_write(table: &FdTable, fd: usize) -> (code: isize)
    ensures
        code == (if table@.is_open(fd) && table@.files[fd as int]->0.writable {
            0int
        } else {
            -1int
        }),
{
    if fd >= table.fd_table.len() {
        return FAILURE;
    }
    match table.fd_table[fd] {
        Some(file) => if file.writable {
            SUCCESS
        } else {
            FAILURE
        },
        None => FAILURE,
    }
}

/// The path under which the file of descriptor `fd` was opened: what has to be
/// looked up to report the status of the file. Nothing where `fd` names no
/// open file, and where the file has no name.
pub fn sys_fstat(table: &FdTable, fd: usize) -> (path: Option<String>)
    requires
        table.wf(),
    ensures
        match path {
            Some(path) => table@.is_open(fd) && table@.names[fd as int] == Some(path@),
            None => !table@.is_open(fd) || table@.names[fd as int] is None,
        },
{
    if fd >= table.fd_table.len() {
        return None;
    }
    if table.fd_table[fd].is_none() {
        return None;
    }
    assert(name_views(table.fd_name@)[fd as int] == (match table.fd_name[fd as int] {
        Some(name) => Some(name@),
        None => None,
    }));
    match &table.fd_name[fd] {
        Some(name) => Some(name.clone()),
        None => None,
    }
}

} // verus!
