//! The virtual filesystem: each node owns an isolated store of byte buffers
//! (inodes) named by path. A `File` is a handle on one inode; every handle on
//! the same path sees the same bytes.
use vstd::prelude::*;

use crate::addr::Addr;

verus! {

/// What went wrong in a filesystem operation.
#[derive(Clone, Copy, Debug, PartialEq, Eq, Structural)]
pub enum ErrorKind {
    /// The path was never created.
    NotFound,
    /// A write through a handle that was opened read-only.
    PermissionDenied,
}

/// The error of a filesystem operation.
#[derive(Clone, Copy, Debug, PartialEq, Eq, Structural)]
pub struct Error {
    pub kind: ErrorKind,
}

impl Error {
    pub fn new(kind: ErrorKind) -> (r: Error)
        ensures
            r.kind == kind,
    {
        Error { kind }
    }

    pub fn kind(&self) -> (r: ErrorKind)
        ensures
            r == self.kind,
    {
        self.kind
    }
}

/// The bytes that a read of at most `n` bytes at `offset` returns: what
/// `data` holds from `offset` on, cut to `n`; nothing past the end.
pub open spec fn read_span(data: Seq<u8>, offset: int, n: int) -> Seq<u8> {
    if offset >= data.len() {
        Seq::empty()
    } else if offset + n <= data.len() {
        data.subrange(offset, offset + n)
    } else {
        data.subrange(offset, data.len() as int)
    }
}

/// `data` after `buf` is written at `offset` (at most `data.len()`): the bytes
/// under `buf` are replaced, and the buffer grows by what reaches past its end.
pub open spec fn written(data: Seq<u8>, buf: Seq<u8>, offset: int) -> Seq<u8> {
    if offset + buf.len() <= data.len() {
        data.subrange(0, offset) + buf + data.subrange(offset + buf.len(), data.len() as int)
    } else {
        data.subrange(0, offset) + buf
    }
}

/// `data` cut or zero-extended to exactly `size` bytes.
pub open spec fn resized(data: Seq<u8>, size: int) -> Seq<u8> {
    if size <= data.len() {
        data.subrange(0, size)
    } else {
        data + Seq::new((size - data.len()) as nat, |i: int| 0u8)
    }
}

/// What a write through `f` returns: refused unless `f` was opened for writing.
pub open spec fn write_permission(f: File) -> Result<(), Error> {
    if f.writable() {
        Ok(())
    } else {
        Err(Error { kind: ErrorKind::PermissionDenied })
    }
}

/// The abstract state of one node's filesystem: inode `i` has path
/// `paths[i]`, current bytes `data[i]`, and bytes that reached the disk
/// `durable[i]`.
pub struct FsView {
    pub addr: Addr,
    pub paths: Seq<Seq<char>>,
    pub data: Seq<Seq<u8>>,
    pub durable: Seq<Seq<u8>>,
}

impl FsView {
    /// Three parallel sequences, and no path named twice.
    pub open spec fn wf(self) -> bool {
        &&& self.data.len() == self.paths.len()
        &&& self.durable.len() == self.paths.len()
        &&& forall|i: int, j: int|
            0 <= i < self.paths.len() && 0 <= j < self.paths.len() && i != j
                ==> self.paths[i] != self.paths[j]
    }

    /// Inode `i` holds path `p`.
    pub open spec fn holds(self, i: int, p: Seq<char>) -> bool {
        0 <= i < self.paths.len() && self.paths[i] == p
    }

    /// The state after `create(p)` when `p` is not there yet.
    pub open spec fn with_new(self, p: Seq<char>) -> FsView {
        FsView {
            addr: self.addr,
            paths: self.paths.push(p),
            data: self.data.push(Seq::empty()),
            durable: self.durable.push(Seq::empty()),
        }
    }

    /// The state with the bytes of inode `i` replaced by `d`.
    pub open spec fn with_data(self, i: int, d: Seq<u8>) -> FsView {
        FsView { data: self.data.update(i, d), ..self }
    }
}

struct INode {
    path: String,
    data: Vec<u8>,
    durable: Vec<u8>,
}

/// An open handle on an inode. Handles opened with `create` may write;
/// handles opened with `open` may only read.
#[derive(Clone, Copy, Debug)]
pub struct File {
    inode: usize,
    can_write: bool,
}

impl File {
    /// The inode this handle refers to.
    pub closed spec fn id(self) -> int {
        self.inode as int
    }

    /// Whether writes through this handle are allowed.
    pub closed spec fn writable(self) -> bool {
        self.can_write
    }
}

/// The filesystem of one node.
pub struct FileSystemLocalHandle {
    addr: Addr,
    inodes: Vec<INode>,
}

impl View for FileSystemLocalHandle {
    type V = FsView;

    closed spec fn view(&self) -> FsView {
        FsView {
            addr: self.addr,
            paths: self.inodes@.map_values(|n: INode| n.path@),
            data: self.inodes@.map_values(|n: INode| n.data@),
            durable: self.inodes@.map_values(|n: INode| n.durable@),
        }
    }
}

impl FileSystemLocalHandle {
    pub open spec fn wf(&self) -> bool {
        self@.wf()
    }

    /// `f` names an inode of this filesystem.
    pub open spec fn owns(&self, f: File) -> bool {
        0 <= f.id() < self@.paths.len()
    }

    /// An empty filesystem for the node at `addr`.
    pub fn new(addr: Addr) -> (r: Self)
        ensures
            r.wf(),
            r@.addr == addr,
            r@.paths.len() == 0,
    {
        let r = FileSystemLocalHandle { addr, inodes: Vec::new() };
        assert(r@.paths =~= Seq::empty());
        r
    }

    pub fn addr(&self) -> (r: Addr)
        ensures
            r == self@.addr,
    {
        self.addr
    }

    fn find(&self, path: &String) -> (r: Option<usize>)
        requires
            self.wf(),
        ensures
            match r {
                Some(i) => self@.holds(i as int, path@),
                None => !self@.paths.contains(path@),
            },
    {
        let mut i: usize = 0;
        while i < self.inodes.len()
            invariant
                i <= self.inodes@.len(),
                self.wf(),
                forall|k: int| 0 <= k < i ==> self@.paths[k] != path@,
            decreases self.inodes@.len() - i,
        {
            if self.inodes[i].path == *path {
                return Some(i);
            }
            i = i + 1;
        }
        None
    }

    /// Opens an existing path for reading; `NotFound` if it was never created.
    pub fn open(&self, path: &str) -> (r: Result<File, Error>)
        requires
            self.wf(),
        ensures
            self@.paths.contains(path@) <==> r is Ok,
            r matches Ok(f) ==> self@.holds(f.id(), path@) && !f.writable(),
            r matches Err(e) ==> e.kind == ErrorKind::NotFound,
    {
        let p = path.to_owned();
        match self.find(&p) {
            Some(i) => Ok(File { inode: i, can_write: false }),
            None => Err(Error::new(ErrorKind::NotFound)),
        }
    }

    /// Creates `path`, or truncates it to no bytes when it exists, and opens it
    /// for writing. The inode keeps its identity across the truncation.
    pub fn create(&mut self, path: &str) -> (r: Result<File, Error>)
        requires
            old(self).wf(),
        ensures
            final(self).wf(),
            r matches Ok(f) && f.writable() && final(self)@.holds(f.id(), path@),
            old(self)@.paths.contains(path@) ==> (r matches Ok(f) && old(self)@.holds(f.id(), path@)
                && final(self)@ == old(self)@.with_data(f.id(), Seq::empty())),
            !old(self)@.paths.contains(path@) ==> final(self)@ == old(self)@.with_new(path@),
    {
        let p = path.to_owned();
        match self.find(&p) {
            Some(i) => {
                let ghost before = self@;
                self.inodes[i].data.clear();
                assert(self@.paths =~= before.paths);
                assert(self@.durable =~= before.durable);
                assert(self@.data =~= before.data.update(i as int, Seq::empty()));
                Ok(File { inode: i, can_write: true })
            },
            None => {
                let ghost before = self@;
                let i = self.inodes.len();
                self.inodes.push(INode { path: p, data: Vec::new(), durable: Vec::new() });
                assert(self@.paths =~= before.paths.push(path@));
                assert(self@.data =~= before.data.push(Seq::empty()));
                assert(self@.durable =~= before.durable.push(Seq::empty()));
                Ok(File { inode: i, can_write: true })
            },
        }
    }

    /// Drops every write that did not reach the disk: each inode goes back to
    /// the bytes it held at its last `sync_all`.
    pub fn power_fail(&mut self)
        requires
            old(self).wf(),
        ensures
            final(self).wf(),
            final(self)@ == (FsView { data: old(self)@.durable, ..old(self)@ }),
    {
        let ghost before = self@;
        let n = self.inodes.len();
        let mut i: usize = 0;
        while i < n
            invariant
                n == self.inodes@.len(),
                i <= n,
                self@.addr == before.addr,
                self@.paths == before.paths,
                self@.durable == before.durable,
                forall|k: int| 0 <= k < i ==> self@.data[k] == before.durable[k],
                forall|k: int| i <= k < n ==> self@.data[k] == before.data[k],
            decreases n - i,
        {
            let ghost mid = self@;
            let d = self.inodes[i].durable.clone();
            self.inodes[i].data = d;
            assert(self@.paths =~= mid.paths);
            assert(self@.durable =~= mid.durable);
            i = i + 1;
        }
        assert(self@.data =~= before.durable);
    }
}

impl File {
    /// Opens an existing path of `fs` for reading.
    pub fn open(fs: &FileSystemLocalHandle, path: &str) -> (r: Result<File, Error>)
        requires
            fs.wf(),
        ensures
            fs@.paths.contains(path@) <==> r is Ok,
            r matches Ok(f) ==> fs@.holds(f.id(), path@) && !f.writable(),
            r matches Err(e) ==> e.kind == ErrorKind::NotFound,
    {
        fs.open(path)
    }

    /// Creates or truncates a path of `fs` and opens it for writing.
    pub fn create(fs: &mut FileSystemLocalHandle, path: &str) -> (r: Result<File, Error>)
        requires
            old(fs).wf(),
        ensures
            final(fs).wf(),
            r matches Ok(f) && f.writable() && final(fs)@.holds(f.id(), path@),
            old(fs)@.paths.contains(path@) ==> (r matches Ok(f) && old(fs)@.holds(f.id(), path@)
                && final(fs)@ == old(fs)@.with_data(f.id(), Seq::empty())),
            !old(fs)@.paths.contains(path@) ==> final(fs)@ == old(fs)@.with_new(path@),
    {
        fs.create(path)
    }

    /// Reads into `buf` the bytes from `offset` on, as many as `buf` holds and
    /// the file has; returns how many. A read at or past the end reads nothing.
    pub fn read_at(&self, fs: &FileSystemLocalHandle, buf: &mut [u8], offset: u64) -> (r: Result<usize, Error>)
        requires
            fs.wf(),
            fs.owns(*self),
        ensures
            ({
                let got = read_span(fs@.data[self.id()], offset as int, old(buf)@.len() as int);
                &&& r == Ok::<usize, Error>(got.len() as usize)
                &&& final(buf)@ == got + old(buf)@.subrange(got.len() as int, old(buf)@.len() as int)
            }),
    {
        let data = &fs.inodes[self.inode].data;
        let len = data.len();
        if offset >= len as u64 {
            proof {
                assert(final(buf)@ =~= Seq::<u8>::empty() + old(buf)@.subrange(0, old(buf)@.len() as int));
            }
            return Ok(0);
        }
        let off = offset as usize;
        let avail = len - off;
        let n = if buf.len() < avail { buf.len() } else { avail };
        let ghost got = read_span(data@, off as int, old(buf)@.len() as int);
        assert(got.len() == n);
        let mut i: usize = 0;
        while i < n
            invariant
                i <= n,
                n <= buf@.len(),
                off + n <= len,
                len == data@.len(),
                fs.wf(),
                fs.owns(*self),
                data@ == fs@.data[self.id()],
                buf@.len() == old(buf)@.len(),
                got == data@.subrange(off as int, off + n),
                forall|k: int| 0 <= k < i ==> buf@[k] == got[k],
                forall|k: int| i <= k < buf@.len() ==> buf@[k] == old(buf)@[k],
            decreases n - i,
        {
            buf[i] = data[off + i];
            i = i + 1;
        }
        assert(buf@ =~= got + old(buf)@.subrange(n as int, old(buf)@.len() as int));
        Ok(n)
    }

    /// Writes all of `buf` at `offset`, extending the file by the bytes that
    /// reach past its end. Refused with `PermissionDenied` through a handle
    /// opened with `open`, and then nothing changes.
    pub fn write_all_at(&self, fs: &mut FileSystemLocalHandle, buf: &[u8], offset: u64) -> (r: Result<(), Error>)
        requires
            old(fs).wf(),
            old(fs).owns(*self),
            self.writable() ==> offset <= old(fs)@.data[self.id()].len(),
        ensures
            final(fs).wf(),
            r == write_permission(*self),
            !self.writable() ==> final(fs)@ == old(fs)@,
            self.writable() ==> final(fs)@ == old(fs)@.with_data(self.id(), written(old(fs)@.data[self.id()], buf@, offset as int)),
    {
        if !self.can_write {
            return Err(Error::new(ErrorKind::PermissionDenied));
        }
        let ghost before = fs@;
        let len = fs.inodes[self.inode].data.len();
        assert(offset <= len);
        let off = offset as usize;
        write_bytes(&mut fs.inodes[self.inode].data, buf, off);
        assert(fs@.paths =~= before.paths);
        assert(fs@.durable =~= before.durable);
        assert(fs@.data =~= before.data.update(self.id(), written(before.data[self.id()], buf@, off as int)));
        Ok(())
    }

    /// Cuts the file, or extends it with zero bytes, to exactly `size` bytes.
    pub fn set_len(&self, fs: &mut FileSystemLocalHandle, size: u64) -> (r: Result<(), Error>)
        requires
            old(fs).wf(),
            old(fs).owns(*self),
            size <= usize::MAX,
        ensures
            final(fs).wf(),
            r == Ok::<(), Error>(()),
            final(fs)@ == old(fs)@.with_data(self.id(), resized(old(fs)@.data[self.id()], size as int)),
    {
        let ghost before = fs@;
        resize_bytes(&mut fs.inodes[self.inode].data, size as usize);
        assert(fs@.paths =~= before.paths);
        assert(fs@.durable =~= before.durable);
        assert(fs@.data =~= before.data.update(self.id(), resized(before.data[self.id()], size as int)));
        Ok(())
    }

    /// Makes the file's current bytes durable: a later power failure keeps them.
    pub fn sync_all(&self, fs: &mut FileSystemLocalHandle) -> (r: Result<(), Error>)
        requires
            old(fs).wf(),
            old(fs).owns(*self),
        ensures
            final(fs).wf(),
            r == Ok::<(), Error>(()),
            final(fs)@ == (FsView {
                durable: old(fs)@.durable.update(self.id(), old(fs)@.data[self.id()]),
                ..old(fs)@
            }),
    {
        let ghost before = fs@;
        let d = fs.inodes[self.inode].data.clone();
        fs.inodes[self.inode].durable = d;
        assert(fs@.paths =~= before.paths);
        assert(fs@.data =~= before.data);
        assert(fs@.durable =~= before.durable.update(self.id(), before.data[self.id()]));
        Ok(())
    }
}

fn write_bytes(data: &mut Vec<u8>, buf: &[u8], off: usize)
    requires
        off <= old(data)@.len(),
    ensures
        final(data)@ == written(old(data)@, buf@, off as int),
{
    let len = data.len();
    let avail = len - off;
    let n = if buf.len() < avail { buf.len() } else { avail };
    let mut i: usize = 0;
    while i < n
        invariant
            i <= n,
            n <= buf@.len(),
            off + n <= len,
            data@.len() == len,
            forall|k: int| 0 <= k < off + i ==> data@[k] == (if k < off { old(data)@[k] } else { buf@[k - off] }),
            forall|k: int| off + i <= k < len ==> data@[k] == old(data)@[k],
        decreases n - i,
    {
        data[off + i] = buf[i];
        i = i + 1;
    }
    let mut j: usize = n;
    while j < buf.len()
        invariant
            n <= j <= buf@.len(),
            n < buf@.len() ==> n == len - off,
            data@.len() == len + (j - n),
            forall|k: int| 0 <= k < off + j ==> data@[k] == (if k < off { old(data)@[k] } else { buf@[k - off] }),
            forall|k: int| off + j <= k < data@.len() ==> data@[k] == old(data)@[k],
        decreases buf@.len() - j,
    {
        data.push(buf[j]);
        j = j + 1;
    }
    assert(data@ =~= written(old(data)@, buf@, off as int));
}

fn resize_bytes(data: &mut Vec<u8>, size: usize)
    ensures
        final(data)@ == resized(old(data)@, size as int),
{
    if size <= data.len() {
        data.truncate(size);
        assert(data@ =~= resized(old(data)@, size as int));
    } else {
        while data.len() < size
            invariant
                old(data)@.len() <= data@.len() <= size,
                data@.subrange(0, old(data)@.len() as int) == old(data)@,
                forall|k: int| old(data)@.len() <= k < data@.len() ==> data@[k] == 0u8,
            decreases size - data@.len(),
        {
            data.push(0u8);
        }
        assert(data@ =~= resized(old(data)@, size as int));
    }
}

/// The filesystems of all nodes, one per address, each made on first use.
pub struct FileSystemHandle {
    handles: Vec<FileSystemLocalHandle>,
}

impl FileSystemHandle {
    /// The filesystem of each node that has one, in the order they were made.
    pub closed spec fn nodes(&self) -> Seq<FsView> {
        views(self.handles@)
    }

    /// Every node's filesystem is well formed, and no address has two.
    pub open spec fn wf(&self) -> bool {
        &&& forall|i: int| 0 <= i < self.nodes().len() ==> #[trigger] self.nodes()[i].wf()
        &&& forall|i: int, j: int|
            0 <= i < self.nodes().len() && 0 <= j < self.nodes().len() && i != j
                ==> self.nodes()[i].addr != self.nodes()[j].addr
    }

    pub fn new() -> (r: Self)
        ensures
            r.wf(),
            r.nodes().len() == 0,
    {
        let r = FileSystemHandle { handles: Vec::new() };
        assert(r.nodes() =~= Seq::empty());
        r
    }

    /// The filesystem of the node at `addr`, made empty on first use. Changes
    /// through the returned reference land in this handle's node list.
    pub fn local_handle(&mut self, addr: Addr) -> (r: &mut FileSystemLocalHandle)
        requires
            old(self).wf(),
        ensures
            r.wf(),
            r@.addr == addr,
            (exists|i: int| 0 <= i < old(self).nodes().len() && old(self).nodes()[i].addr == addr) ==> exists|i: int|
                0 <= i < old(self).nodes().len() && old(self).nodes()[i].addr == addr && r@ == old(self).nodes()[i]
                    && final(self).nodes() == old(self).nodes().update(i, final(r)@),
            (forall|i: int| 0 <= i < old(self).nodes().len() ==> old(self).nodes()[i].addr != addr) ==> (r@.paths.len() == 0
                && final(self).nodes() == old(self).nodes().push(final(r)@)),
    {
        let mut i: usize = 0;
        while i < self.handles.len()
            invariant
                i <= self.handles@.len(),
                self.wf(),
                *self == *old(self),
                forall|k: int| 0 <= k < i ==> self.nodes()[k].addr != addr,
            decreases self.handles@.len() - i,
        {
            if self.handles[i].addr == addr {
                assert(self.nodes()[i as int] == self.handles@[i as int]@);
                proof {
                    lemma_views_update(self.handles@, i as int);
                }
                return &mut self.handles[i];
            }
            i = i + 1;
        }
        let ghost before = self.handles@;
        self.handles.push(FileSystemLocalHandle::new(addr));
        let n = self.handles.len() - 1;
        proof {
            lemma_views_update(self.handles@, n as int);
            assert forall|x: FileSystemLocalHandle| #[trigger] self.handles@.update(n as int, x) == before.push(x) by {
                assert(self.handles@.update(n as int, x) =~= before.push(x));
            }
            assert forall|x: FileSystemLocalHandle| #[trigger] views(before.push(x))
                == views(before).push(x@) by {
                assert(views(before.push(x))
                    =~= views(before).push(x@));
            }
        }
        &mut self.handles[n]
    }

    /// Simulates a power failure on the node at `addr`: every write there
    /// that no `sync_all` made durable is lost. A node without a filesystem
    /// is left as it is.
    pub fn power_fail(&mut self, addr: Addr)
        requires
            old(self).wf(),
        ensures
            final(self).wf(),
            forall|i: int|
                0 <= i < old(self).nodes().len() && old(self).nodes()[i].addr == addr ==> final(self).nodes()
                    == old(self).nodes().update(i, FsView { data: old(self).nodes()[i].durable, ..old(self).nodes()[i] }),
            (forall|i: int| 0 <= i < old(self).nodes().len() ==> old(self).nodes()[i].addr != addr)
                ==> final(self).nodes() == old(self).nodes(),
    {
        let mut i: usize = 0;
        while i < self.handles.len()
            invariant
                i <= self.handles@.len(),
                self.wf(),
                *self == *old(self),
                forall|k: int| 0 <= k < i ==> self.nodes()[k].addr != addr,
            decreases self.handles@.len() - i,
        {
            if self.handles[i].addr == addr {
                let ghost before = self.handles@;
                assert(self.nodes()[i as int] == before[i as int]@);
                let mut h = self.handles.remove(i);
                assert(h@ == before[i as int]@);
                h.power_fail();
                self.handles.insert(i, h);
                proof {
                    assert(self.handles@ =~= before.update(i as int, h));
                    lemma_views_update(before, i as int);
                    assert forall|j: int| 0 <= j < old(self).nodes().len() && old(self).nodes()[j].addr == addr implies j
                        == i by {
                        if j != i {
                            assert(old(self).nodes()[i as int].addr == addr);
                        }
                    }
                }
                return;
            }
            i = i + 1;
        }
    }
}

spec fn views(s: Seq<FileSystemLocalHandle>) -> Seq<FsView> {
    s.map_values(|h: FileSystemLocalHandle| h@)
}

proof fn lemma_views_update(s: Seq<FileSystemLocalHandle>, i: int)
    requires
        0 <= i < s.len(),
    ensures
        forall|x: FileSystemLocalHandle| #[trigger] views(s.update(i, x))
            == views(s).update(i, x@),
{
    assert forall|x: FileSystemLocalHandle| #[trigger] views(s.update(i, x))
        == views(s).update(i, x@) by {
        assert(views(s.update(i, x))
            =~= views(s).update(i, x@));
    }
}

/// Owns the filesystems of a simulation.
pub struct FileSystemRuntime {
    handle: FileSystemHandle,
}

impl FileSystemRuntime {
    /// The filesystems that this runtime holds.
    pub closed spec fn fs(&self) -> FileSystemHandle {
        self.handle
    }

    pub fn new() -> (r: Self)
        ensures
            r.fs().wf(),
            r.fs().nodes().len() == 0,
    {
        FileSystemRuntime { handle: FileSystemHandle::new() }
    }

    pub fn handle(&self) -> (r: &FileSystemHandle)
        ensures
            *r == self.fs(),
    {
        &self.handle
    }

    pub fn handle_mut(&mut self) -> (r: &mut FileSystemHandle)
        ensures
            *r == old(self).fs(),
            final(self).fs() == *final(r),
    {
        &mut self.handle
    }
}

/// A write of `buf` at the start, then a read of `buf.len()` bytes at the
/// start, gives back exactly `buf`.
pub proof fn lemma_write_read_round_trip(data: Seq<u8>, buf: Seq<u8>)
    ensures
        read_span(written(data, buf, 0), 0, buf.len() as int) == buf,
{
    let w = written(data, buf, 0);
    assert(w.subrange(0, buf.len() as int) =~= buf);
    if buf.len() == 0 {
        assert(read_span(w, 0, 0) =~= buf);
    }
}

/// After `create` truncates a path, a read through the new handle returns no
/// bytes, wherever it starts and however much it asks for.
pub proof fn lemma_create_truncates(v: FsView, i: int, offset: int, n: int)
    requires
        v.wf(),
        0 <= i < v.paths.len(),
        0 <= offset,
        0 <= n,
    ensures
        v.with_data(i, Seq::empty()).wf(),
        read_span(v.with_data(i, Seq::empty()).data[i], offset, n).len() == 0,
{
}

/// A handle that `open` gave cannot write: the write is refused with
/// `PermissionDenied`.
pub proof fn lemma_open_is_read_only(fs: FileSystemLocalHandle, path: Seq<char>, f: File)
    requires
        fs@.holds(f.id(), path),
        !f.writable(),
    ensures
        write_permission(f) == Err::<(), Error>(Error { kind: ErrorKind::PermissionDenied }),
{
}

/// A read that asks for more than is left from `offset` returns exactly what
/// is left: a short count, no padding.
pub proof fn lemma_short_read(data: Seq<u8>, offset: int, n: int)
    requires
        0 <= offset <= data.len(),
        n >= data.len() - offset,
    ensures
        read_span(data, offset, n) == data.subrange(offset, data.len() as int),
        read_span(data, offset, n).len() == data.len() - offset,
{
    if offset == data.len() {
        assert(read_span(data, offset, n) =~= data.subrange(offset, data.len() as int));
    }
}

/// Reads the whole contents of `path`; `NotFound` if it was never created.
pub fn read(fs: &FileSystemLocalHandle, path: &str) -> (r: Result<Vec<u8>, Error>)
    requires
        fs.wf(),
    ensures
        fs@.paths.contains(path@) <==> r is Ok,
        r matches Ok(v) ==> exists|i: int| fs@.holds(i, path@) && v@ == fs@.data[i],
        r matches Err(e) ==> e.kind == ErrorKind::NotFound,
{
    match fs.open(path) {
        Ok(file) => {
            let v = fs.inodes[file.inode].data.clone();
            assert(fs@.holds(file.id(), path@) && v@ == fs@.data[file.id()]);
            Ok(v)
        },
        Err(e) => Err(e),
    }
}

} // verus!
