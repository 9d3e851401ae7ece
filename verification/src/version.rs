//! The versioned buffer set: an ordered sequence of write buffers by
//! monotonically increasing file id, published to readers as
//! immutable snapshots, with a hand-off permit between the sealing
//! writer and the flush worker, and an append-only version chain that
//! readers walk to adopt the newest snapshot.

use vstd::prelude::*;

use crate::write_buffer::{ReleaseState, WriteBuffer};
use crate::Error;

verus! {

/// Opaque descriptor of an on-disk file, delivered by the on-disk
/// layer and stored verbatim.
#[derive(Clone, Copy, PartialEq, Eq, Structural)]
pub struct FileInfo {
    /// The handle under which the on-disk layer serves the file.
    pub handle: u64,
}

/// The on-disk state a new version publishes: the known files and the
/// files obsoleted but possibly still referenced.
pub struct DeltaVersion {
    /// The known on-disk files, by file id.
    pub files: std::collections::HashMap<u32, FileInfo>,
    /// The obsoleted file ids, each listed once.
    pub deleted_files: Vec<u32>,
}

/// One immutable snapshot of the live write buffers: the sealed
/// buffers, oldest first, and the one current (possibly just-sealed)
/// buffer, with consecutive file ids over the half-open range
/// `[start_file_id, end_file_id)`. The fields are exposed for
/// specification; mutate only through `BufferSet`, which keeps `wf`.
pub struct BufferSetVersion {
    /// The first live file id.
    pub start_file_id: u32,
    /// One past the last live file id.
    pub end_file_id: u32,
    /// The sealed buffers, oldest first.
    pub sealed_buffers: Vec<WriteBuffer>,
    /// The buffer at `end_file_id - 1`, the only one open to writers.
    pub current_buffer: WriteBuffer,
}

impl BufferSetVersion {
    /// Well-formedness: one current buffer; the sealed buffers fill
    /// the rest of the range in order, so file ids are consecutive.
    pub open spec fn wf(self) -> bool {
        &&& self.start_file_id < self.end_file_id
        &&& self.sealed_buffers@.len() == self.end_file_id - self.start_file_id - 1
        &&& (forall|i: int|
            0 <= i < self.sealed_buffers@.len() ==> (#[trigger] self.sealed_buffers@[i]).file_id
                == self.start_file_id + i)
        &&& (forall|i: int|
            0 <= i < self.sealed_buffers@.len() ==> (#[trigger] self.sealed_buffers@[i]).wf())
        &&& self.current_buffer.file_id == self.end_file_id - 1
        &&& self.current_buffer.wf()
    }

    /// The first live file id.
    pub fn min_file_id(&self) -> (r: u32)
        ensures
            r == self.start_file_id,
    {
        self.start_file_id
    }

    /// One past the last live file id: the id the next installed
    /// buffer must carry.
    pub fn next_file_id(&self) -> (r: u32)
        ensures
            r == self.end_file_id,
    {
        self.end_file_id
    }

    /// The live buffer with the given file id, or `None` when the id
    /// is outside the version's range.
    pub fn write_buffer(&self, file_id: u32) -> (r: Option<&WriteBuffer>)
        requires
            self.wf(),
        ensures
            self.start_file_id <= file_id < self.end_file_id ==> (r matches Some(b) && b.file_id
                == file_id && (file_id == self.end_file_id - 1 ==> *b == self.current_buffer) && (
            file_id < self.end_file_id - 1 ==> *b == self.sealed_buffers@[file_id
                - self.start_file_id])),
            !(self.start_file_id <= file_id < self.end_file_id) ==> r is None,
    {
        if file_id < self.start_file_id || file_id >= self.end_file_id {
            None
        } else if file_id == self.end_file_id - 1 {
            Some(&self.current_buffer)
        } else {
            Some(&self.sealed_buffers[(file_id - self.start_file_id) as usize])
        }
    }

    /// Deep copies of all live buffers, oldest first, the current
    /// buffer last.
    pub fn snapshot(&self) -> (r: Vec<WriteBuffer>)
        requires
            self.wf(),
        ensures
            r@.len() == self.sealed_buffers@.len() + 1,
            forall|i: int|
                0 <= i < self.sealed_buffers@.len() ==> (#[trigger] self.sealed_buffers@[i]).like(
                    r@[i],
                ),
            self.current_buffer.like(r@[r@.len() - 1]),
    {
        let n = self.sealed_buffers.len();
        let mut r: Vec<WriteBuffer> = Vec::new();
        let mut i: usize = 0;
        while i < n
            invariant
                i <= n,
                n == self.sealed_buffers@.len(),
                r@.len() == i,
                forall|j: int|
                    0 <= j < i ==> (#[trigger] self.sealed_buffers@[j]).like(r@[j]),
            decreases n - i,
        {
            let c = self.sealed_buffers[i].clone();
            r.push(c);
            i = i + 1;
        }
        let c = self.current_buffer.clone();
        r.push(c);
        r
    }
}

/// Law: in any well-formed buffer-set version the sealed buffers are
/// one fewer than the width of the range, their file ids run
/// consecutively from the start of the range, and the current buffer
/// carries the last id of the range.
pub proof fn lemma_version_shape(v: BufferSetVersion)
    requires
        v.wf(),
    ensures
        v.sealed_buffers@.len() == v.end_file_id - v.start_file_id - 1,
        forall|i: int|
            0 <= i < v.sealed_buffers@.len() ==> (#[trigger] v.sealed_buffers@[i]).file_id
                == v.start_file_id + i,
        v.current_buffer.file_id == v.end_file_id - 1,
{
}

/// Owner of the current buffer-set version: rotates in a new current
/// buffer on seal, retires the oldest sealed buffer on flush, and
/// carries the single flush permit that hands a sealed buffer over to
/// the flush worker. The fields are exposed for specification; mutate
/// only through the methods, which keep `wf`.
pub struct BufferSet {
    /// The fixed capacity of every write buffer, a power of two.
    pub write_buffer_capacity: u32,
    /// The published version.
    pub current: BufferSetVersion,
    /// The single stored wakeup for the flush worker; extra notifies
    /// coalesce into it.
    pub flush_permit: bool,
}

impl BufferSet {
    /// Well-formedness: a valid capacity and a well-formed current
    /// version.
    pub open spec fn wf(self) -> bool {
        &&& self.write_buffer_capacity > 8
        &&& crate::write_buffer::spec_is_power_of_two(self.write_buffer_capacity as int)
        &&& self.current.wf()
    }

    /// A fresh buffer set: one empty open buffer at file id zero,
    /// range `[0, 1)`, no permit stored.
    pub fn new(write_buffer_capacity: u32) -> (r: BufferSet)
        requires
            write_buffer_capacity > 8,
            crate::write_buffer::spec_is_power_of_two(write_buffer_capacity as int),
        ensures
            r.wf(),
            r.write_buffer_capacity == write_buffer_capacity,
            r.current.start_file_id == 0,
            r.current.end_file_id == 1,
            r.current.sealed_buffers@.len() == 0,
            r.current.current_buffer.file_id == 0,
            r.current.current_buffer.records@.len() == 0,
            r.current.current_buffer.st() == (crate::write_buffer::BufferState {
                sealed: false,
                num_writer: 0,
                allocated: 0,
            }),
            r.flush_permit == false,
    {
        let buf = WriteBuffer::with_capacity(0, write_buffer_capacity);
        BufferSet {
            write_buffer_capacity,
            current: BufferSetVersion {
                start_file_id: 0,
                end_file_id: 1,
                sealed_buffers: Vec::new(),
                current_buffer: buf,
            },
            flush_permit: false,
        }
    }

    /// The fixed capacity of every write buffer.
    pub fn write_buffer_capacity(&self) -> (r: u32)
        ensures
            r == self.write_buffer_capacity,
    {
        self.write_buffer_capacity
    }

    /// The current version. In this sequential model the borrow plays
    /// the role of the epoch-pinned reference a concurrent reader
    /// would hold.
    pub fn current(&self) -> (r: &BufferSetVersion)
        ensures
            *r == self.current,
    {
        &self.current
    }

    /// Install a new current buffer, moving the old current buffer
    /// onto the end of the sealed list and widening the range by one.
    /// Only the routine that sealed the previous buffer installs, and
    /// the new buffer's file id must be exactly the next file id.
    pub fn install(&mut self, write_buffer: WriteBuffer)
        requires
            old(self).wf(),
            write_buffer.wf(),
            write_buffer.file_id == old(self).current.end_file_id,
            old(self).current.end_file_id < u32::MAX,
        ensures
            final(self).wf(),
            final(self).write_buffer_capacity == old(self).write_buffer_capacity,
            final(self).flush_permit == old(self).flush_permit,
            final(self).current.start_file_id == old(self).current.start_file_id,
            final(self).current.end_file_id == old(self).current.end_file_id + 1,
            final(self).current.sealed_buffers@ == old(self).current.sealed_buffers@.push(
                old(self).current.current_buffer,
            ),
            final(self).current.current_buffer == write_buffer,
    {
        self.current.sealed_buffers.push(write_buffer);
        let n = self.current.sealed_buffers.len();
        let last = vstd::std_specs::vec::vec_index_mut(&mut self.current.sealed_buffers, n - 1);
        core::mem::swap(last, &mut self.current.current_buffer);
        self.current.end_file_id = self.current.end_file_id + 1;
        proof {
            assert(self.current.sealed_buffers@ =~= old(self).current.sealed_buffers@.push(
                old(self).current.current_buffer,
            ));
        }
    }

    /// Retire the oldest sealed buffer after the flush worker
    /// persisted it, narrowing the range by one from the front. The
    /// file id must be exactly the oldest live id.
    pub fn on_flushed(&mut self, file_id: u32)
        requires
            old(self).wf(),
            file_id == old(self).current.start_file_id,
            old(self).current.sealed_buffers@.len() > 0,
        ensures
            final(self).wf(),
            final(self).write_buffer_capacity == old(self).write_buffer_capacity,
            final(self).flush_permit == old(self).flush_permit,
            final(self).current.start_file_id == old(self).current.start_file_id + 1,
            final(self).current.end_file_id == old(self).current.end_file_id,
            final(self).current.sealed_buffers@ == old(self).current.sealed_buffers@.drop_first(),
            final(self).current.current_buffer == old(self).current.current_buffer,
            old(self).current.sealed_buffers@[0].file_id == file_id,
    {
        let retired = self.current.sealed_buffers.remove(0);
        self.current.start_file_id = self.current.start_file_id + 1;
        proof {
            assert(retired.file_id == file_id);
            assert(self.current.sealed_buffers@ =~= old(self).current.sealed_buffers@.drop_first());
        }
    }

    /// Seal the current buffer in place, optionally releasing a
    /// writer, as `WriteBuffer::seal` does.
    pub fn seal_current(&mut self, release_writer: bool) -> (r: Result<ReleaseState, Error>)
        requires
            old(self).wf(),
            release_writer ==> old(self).current.current_buffer.st().num_writer > 0,
        ensures
            final(self).wf(),
            final(self).write_buffer_capacity == old(self).write_buffer_capacity,
            final(self).flush_permit == old(self).flush_permit,
            final(self).current.start_file_id == old(self).current.start_file_id,
            final(self).current.end_file_id == old(self).current.end_file_id,
            final(self).current.sealed_buffers == old(self).current.sealed_buffers,
            final(self).current.current_buffer.records == old(self).current.current_buffer.records,
            final(self).current.current_buffer.file_id == old(self).current.current_buffer.file_id,
            old(self).current.current_buffer.st().sealed && !release_writer ==> r == Result::<
                ReleaseState,
                Error,
            >::Err(Error::Again) && *final(self) == *old(self),
            !old(self).current.current_buffer.st().sealed ==> final(self).current.current_buffer.st().sealed,
            !(old(self).current.current_buffer.st().sealed && !release_writer) ==> r == Result::<
                ReleaseState,
                Error,
            >::Ok(
                if final(self).current.current_buffer.st().spec_is_flushable() {
                    ReleaseState::Flush
                } else {
                    ReleaseState::Pending
                },
            ),
    {
        self.current.current_buffer.seal(release_writer)
    }

    /// Store the single flush permit, waking the flush worker's next
    /// wait; repeated notifies coalesce.
    pub fn notify_flush_job(&mut self)
        ensures
            final(self).flush_permit == true,
            final(self).write_buffer_capacity == old(self).write_buffer_capacity,
            final(self).current == old(self).current,
    {
        self.flush_permit = true;
    }

    /// Take the flush permit if one is stored. This is the
    /// synchronous core of waiting for flushable work: the flush
    /// worker polls it, and suspends between polls.
    pub fn try_wait_flushable(&mut self) -> (r: bool)
        ensures
            r == old(self).flush_permit,
            final(self).flush_permit == false,
            final(self).write_buffer_capacity == old(self).write_buffer_capacity,
            final(self).current == old(self).current,
    {
        let r = self.flush_permit;
        self.flush_permit = false;
        r
    }
}


/// The atomic successor pointer of a version: empty until the next
/// version is installed, set exactly once.
pub struct NextVersion {
    /// The installed successor, if any.
    pub raw_version: Option<Box<Version>>,
}

impl NextVersion {
    /// Install the successor version. Installing over an existing
    /// successor is a programming error, so the slot must be empty.
    pub fn install(&mut self, version: Box<Version>)
        requires
            old(self).raw_version is None,
        ensures
            final(self).raw_version == Some(version),
    {
        self.raw_version = Some(version);
    }
}

/// A reader snapshot: the buffer range and deep copies of the live
/// write buffers at creation time (so pages stay addressable after
/// the buffer set drops a flushed buffer), the on-disk file state,
/// and the link to the successor version, if one was installed.
pub struct Version {
    /// The first file id of the snapshot's buffer range.
    pub start_file_id: u32,
    /// One past the last file id of the snapshot's buffer range.
    pub end_file_id: u32,
    /// The live write buffers at creation time, oldest first.
    pub write_buffers: Vec<WriteBuffer>,
    /// The known on-disk files, stored verbatim.
    pub files: std::collections::HashMap<u32, FileInfo>,
    /// The file ids obsoleted but possibly still referenced.
    pub deleted_files: Vec<u32>,
    /// The link to the successor version.
    pub next: NextVersion,
}

impl Version {
    /// How many versions this chain holds, this one included.
    pub open spec fn chain_len(self) -> nat
        decreases self,
    {
        match self.next.raw_version {
            None => 1,
            Some(v) => 1 + v.chain_len(),
        }
    }

    /// The newest version of the chain.
    pub open spec fn spec_tail(self) -> Version
        decreases self,
    {
        match self.next.raw_version {
            None => self,
            Some(v) => v.spec_tail(),
        }
    }

    /// Whether this version snapshots the given buffer set: same
    /// range, and buffers with the same contents, oldest first, the
    /// current buffer last.
    pub open spec fn snapshots(self, bs: BufferSet) -> bool {
        &&& self.start_file_id == bs.current.start_file_id
        &&& self.end_file_id == bs.current.end_file_id
        &&& self.write_buffers@.len() == bs.current.sealed_buffers@.len() + 1
        &&& (forall|i: int|
            0 <= i < bs.current.sealed_buffers@.len() ==> (
            #[trigger] bs.current.sealed_buffers@[i]).like(self.write_buffers@[i]))
        &&& bs.current.current_buffer.like(self.write_buffers@[self.write_buffers@.len() - 1])
    }

    /// A first version: a snapshot of the buffer set with no on-disk
    /// files yet and no successor.
    pub fn new(buffer_set: &BufferSet) -> (v: Version)
        requires
            buffer_set.wf(),
        ensures
            v.snapshots(*buffer_set),
            v.files@.len() == 0,
            v.deleted_files@.len() == 0,
            v.next.raw_version is None,
            v.chain_len() == 1,
    {
        let write_buffers = buffer_set.current().snapshot();
        Version {
            start_file_id: buffer_set.current().min_file_id(),
            end_file_id: buffer_set.current().next_file_id(),
            write_buffers,
            files: std::collections::HashMap::new(),
            deleted_files: Vec::new(),
            next: NextVersion { raw_version: None },
        }
    }

    /// Install a new version at the end of the chain: walk to the
    /// newest version and link a fresh snapshot of the buffer set,
    /// carrying the delta's on-disk state. All installations come in
    /// write-buffer order, so the chain only ever grows at its tail.
    pub fn install(&mut self, buffer_set: &BufferSet, delta: DeltaVersion)
        requires
            buffer_set.wf(),
        ensures
            final(self).chain_len() == old(self).chain_len() + 1,
            final(self).spec_tail().snapshots(*buffer_set),
            final(self).spec_tail().files == delta.files,
            final(self).spec_tail().deleted_files == delta.deleted_files,
            final(self).spec_tail().next.raw_version is None,
            final(self).start_file_id == old(self).start_file_id,
            final(self).end_file_id == old(self).end_file_id,
            final(self).write_buffers == old(self).write_buffers,
            final(self).files == old(self).files,
            final(self).deleted_files == old(self).deleted_files,
        decreases old(self).chain_len(),
    {
        let taken = self.next.raw_version.take();
        match taken {
            Some(b) => {
                let ghost bpre = *b;
                let mut inner = *b;
                inner.install(buffer_set, delta);
                let ghost innerpost = inner;
                self.next.raw_version = Some(Box::new(inner));
                proof {
                    assert(old(self).chain_len() == 1 + bpre.chain_len());
                    assert(old(self).spec_tail() == bpre.spec_tail());
                    assert(self.next.raw_version matches Some(bb) && *bb == innerpost);
                    assert(self.chain_len() == 1 + innerpost.chain_len());
                    assert(self.spec_tail() == innerpost.spec_tail());
                    assert(innerpost.chain_len() == bpre.chain_len() + 1);
                    assert(innerpost.spec_tail().snapshots(*buffer_set));
                    assert(self.chain_len() == old(self).chain_len() + 1);
                    assert(self.spec_tail().snapshots(*buffer_set));
                    assert(self.spec_tail().files == delta.files);
                    assert(self.spec_tail().next.raw_version is None);
                    assert(self.start_file_id == old(self).start_file_id);
                    assert(self.write_buffers == old(self).write_buffers);
                }
            },
            None => {
                let write_buffers = buffer_set.current().snapshot();
                let new = Version {
                    start_file_id: buffer_set.current().min_file_id(),
                    end_file_id: buffer_set.current().next_file_id(),
                    write_buffers,
                    files: delta.files,
                    deleted_files: delta.deleted_files,
                    next: NextVersion { raw_version: None },
                };
                let ghost newv = new;
                self.next.install(Box::new(new));
                proof {
                    assert(self.next.raw_version matches Some(bb) && *bb == newv);
                    assert(newv.chain_len() == 1);
                    assert(newv.spec_tail() == newv);
                    assert(self.chain_len() == 1 + newv.chain_len());
                    assert(self.spec_tail() == newv.spec_tail());
                    assert(old(self).chain_len() == 1);
                    assert(self.spec_tail().snapshots(*buffer_set));
                }
            },
        }
    }

    /// The newest version of the chain, or `None` when this version
    /// is already the newest. This is how a reader adopts a newer
    /// snapshot without blocking the installer.
    pub fn refresh(&self) -> (r: Option<&Version>)
        ensures
            self.next.raw_version is None <==> r is None,
            r matches Some(t) ==> *t == self.spec_tail() && t.next.raw_version is None,
    {
        match &self.next.raw_version {
            None => None,
            Some(first) => {
                let mut cur: &Version = first;
                loop
                    invariant
                        cur.spec_tail() == self.spec_tail(),
                        self.next.raw_version is Some,
                    decreases cur.chain_len(),
                {
                    match &cur.next.raw_version {
                        Some(n) => {
                            cur = n;
                        },
                        None => {
                            return Some(cur);
                        },
                    }
                }
            },
        }
    }

    /// The file id of the buffer currently open to writers.
    pub fn active_write_buffer_id(&self, buffer_set: &BufferSet) -> (r: u32)
        requires
            buffer_set.wf(),
        ensures
            r == buffer_set.current.current_buffer.file_id,
    {
        buffer_set.current().current_buffer.file_id()
    }

    /// The files obsoleted but still referenced by this version.
    pub fn deleted_files(&self) -> (r: Vec<u32>)
        ensures
            r@ == self.deleted_files@,
    {
        let r = self.deleted_files.clone();
        proof {
            assert(r@ =~= self.deleted_files@);
        }
        r
    }

    /// The known on-disk files, as delivered by the on-disk layer.
    pub fn files(&self) -> (r: &std::collections::HashMap<u32, FileInfo>)
        ensures
            r == &self.files,
    {
        &self.files
    }

    /// Consume a chain and keep only its newest version.
    fn into_tail(v: Version) -> (r: Version)
        ensures
            r == v.spec_tail(),
        decreases v.chain_len(),
    {
        let Version { start_file_id, end_file_id, write_buffers, files, deleted_files, next } = v;
        match next.raw_version {
            Some(b) => Self::into_tail(*b),
            None => Version {
                start_file_id,
                end_file_id,
                write_buffers,
                files,
                deleted_files,
                next: NextVersion { raw_version: None },
            },
        }
    }

    /// Remember `version` as the worker's current version.
    pub fn set_local(cache: &mut LocalVersionCache, version: Version)
        ensures
            final(cache).slot == Some(version),
    {
        cache.slot = Some(version);
    }

    /// The worker's cached version, if it holds one.
    pub fn get_local(cache: &LocalVersionCache) -> (r: Option<&Version>)
        ensures
            cache.slot is None <==> r is None,
            r matches Some(v) ==> cache.slot == Some(*v),
    {
        cache.slot.as_ref()
    }

    /// The worker's current version, moved forward to the newest
    /// version its chain knows. A worker with no cached version gets
    /// `None` and obtains one from the buffer set.
    pub fn from_local(cache: &mut LocalVersionCache) -> (r: Option<&Version>)
        ensures
            old(cache).slot is None ==> r is None && final(cache).slot is None,
            old(cache).slot matches Some(v) ==> final(cache).slot == Some(v.spec_tail()) && (
            r matches Some(t) && *t == v.spec_tail()),
    {
        let taken = cache.slot.take();
        match taken {
            None => None,
            Some(v) => {
                let tail = Self::into_tail(v);
                cache.slot = Some(tail);
                cache.slot.as_ref()
            },
        }
    }
}

/// A worker's cached current version: the per-worker stand-in for a
/// thread-local slot.
pub struct LocalVersionCache {
    /// The cached version, if the worker holds one.
    pub slot: Option<Version>,
}

impl LocalVersionCache {
    /// An empty cache: the worker holds no version yet.
    pub fn new() -> (c: LocalVersionCache)
        ensures
            c.slot is None,
    {
        LocalVersionCache { slot: None }
    }
}


} // verus!
