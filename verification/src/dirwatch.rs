//! Recursive filesystem watching: the watch-descriptor table, the decoder for
//! variable-length change-notification records, and the per-record decision
//! step that turns a decoded record into actions — registering a watch on a
//! newly created directory and publishing the changed path.
//!
//! The operating-system calls that register watches and read records live
//! with the unverified I/O shell; it drives the loop, hands each raw buffer
//! to [`decode_record`], and performs the actions [`watch_step`] decides.

use crate::error::Error;
use std::collections::HashMap;
use vstd::prelude::*;
use vstd::slice::slice_subrange;
use vstd::slice::slice_to_vec;

verus! {

broadcast use vstd::std_specs::hash::group_hash_axioms;

/// A file was written and closed.
pub const IN_CLOSE_WRITE: u32 = 0x8;

/// A file or directory was modified.
pub const IN_MODIFY: u32 = 0x2;

/// A file or directory was created.
pub const IN_CREATE: u32 = 0x100;

/// A file or directory was deleted.
pub const IN_DELETE: u32 = 0x200;

/// The watched directory itself was deleted.
pub const IN_DELETE_SELF: u32 = 0x400;

/// The watch was removed by the operating system.
pub const IN_IGNORED: u32 = 0x8000;

/// Size in bytes of a notification record's fixed header: watch descriptor,
/// mask, cookie, and declared name length, four bytes each.
pub const EVENT_HEADER_SIZE: usize = 16;

/// The path separator byte, `/`.
pub const SEP: u8 = 47;

/// Capacity of the fixed-size path buffer.
pub const PATH_CAPACITY: usize = 128;

/// A fixed-capacity byte string: a length and an inline buffer. Used for
/// paths on the event bus so that events stay plain copyable values; growing
/// it past its capacity is an explicit error, never a silent truncation.
#[derive(Clone, Copy)]
pub struct PascalString {
    len: u8,
    buf: [u8; 128],
}

impl View for PascalString {
    type V = Seq<u8>;

    closed spec fn view(&self) -> Seq<u8> {
        self.buf@.take(self.len as int)
    }
}

impl PascalString {
    /// The length never exceeds the buffer's capacity.
    pub closed spec fn wf(&self) -> bool {
        self.len <= PATH_CAPACITY
    }

    /// Creates a path buffer holding `data`.
    pub fn new(data: &[u8]) -> (s: Self)
        requires
            data@.len() <= PATH_CAPACITY,
        ensures
            s.wf(),
            s@ == data@,
    {
        let mut s = PascalString { len: 0, buf: [0u8; 128] };
        let r = s.extend(data);
        proof {
            assert(Seq::<u8>::empty() + data@ =~= data@);
        }
        s
    }

    /// Appends `data`, or reports overflow, leaving the value unchanged, when
    /// the result would not fit.
    pub fn extend(&mut self, data: &[u8]) -> (r: Result<(), Error>)
        requires
            old(self).wf(),
        ensures
            final(self).wf(),
            r is Ok <==> old(self)@.len() + data@.len() <= PATH_CAPACITY,
            r is Ok ==> final(self)@ == old(self)@ + data@,
            r is Err ==> *final(self) == *old(self) && r == Err::<(), Error>(Error::PathOverflow),
    {
        if data.len() > PATH_CAPACITY - self.len as usize {
            return Err(Error::PathOverflow);
        }
        let mut i: usize = 0;
        while i < data.len()
            invariant
                old(self).wf(),
                self.len == old(self).len,
                i <= data@.len(),
                old(self)@.len() + data@.len() <= PATH_CAPACITY,
                self.buf@.take(self.len as int) == old(self)@,
                self.buf@.subrange(self.len as int, self.len as int + i as int) == data@.take(
                    i as int,
                ),
            decreases data@.len() - i,
        {
            self.buf[self.len as usize + i] = data[i];
            proof {
                assert(self.buf@.take(self.len as int) =~= old(self)@);
                assert(self.buf@.subrange(self.len as int, self.len as int + i + 1) =~= data@.take(
                    i + 1,
                ));
            }
            i = i + 1;
        }
        self.len = self.len + data.len() as u8;
        proof {
            assert(data@.take(data@.len() as int) =~= data@);
            assert(self.buf@.take(self.len as int) =~= old(self)@ + data@);
        }
        Ok(())
    }

    /// The stored bytes.
    pub fn as_bytes(&self) -> (r: &[u8])
        requires
            self.wf(),
        ensures
            r@ == self@,
    {
        slice_subrange(self.buf.as_slice(), 0, self.len as usize)
    }

    /// Number of stored bytes.
    pub fn len(&self) -> (r: usize)
        requires
            self.wf(),
        ensures
            r == self@.len(),
    {
        self.len as usize
    }
}

/// The little-endian 32-bit value held by the four bytes of `s`.
pub open spec fn le_u32(s: Seq<u8>) -> int
    recommends
        s.len() == 4,
{
    s[0] + s[1] * 0x100 + s[2] * 0x10000 + s[3] * 0x1000000
}

/// Index of the first NUL byte of `s`, or `s.len()` when none occurs.
pub open spec fn nul_index(s: Seq<u8>) -> int
    decreases s.len(),
{
    if s.len() == 0 {
        0
    } else if s[0] == 0 {
        0
    } else {
        1 + nul_index(s.drop_first())
    }
}

/// The name held by a NUL-padded name field: the bytes before the first NUL.
pub open spec fn c_name(s: Seq<u8>) -> Seq<u8> {
    s.take(nul_index(s))
}

proof fn lemma_nul_index(s: Seq<u8>)
    ensures
        0 <= nul_index(s) <= s.len(),
        forall|i: int| 0 <= i < nul_index(s) ==> s[i] != 0,
        nul_index(s) < s.len() ==> s[nul_index(s)] == 0,
    decreases s.len(),
{
    if s.len() > 0 && s[0] != 0 {
        lemma_nul_index(s.drop_first());
        assert forall|i: int| 0 <= i < nul_index(s) implies s[i] != 0 by {
            if i > 0 {
                assert(s.drop_first()[i - 1] != 0);
            }
        }
    }
}

/// Reads the little-endian 32-bit value at `pos`.
fn read_u32_le(buffer: &[u8], pos: usize) -> (r: u32)
    requires
        pos + 4 <= buffer@.len(),
    ensures
        r == le_u32(buffer@.subrange(pos as int, pos as int + 4)),
{
    let n = buffer.len();
    let b0 = *vstd::slice::slice_index_get(buffer, pos);
    let b1 = *vstd::slice::slice_index_get(buffer, pos + 1);
    let b2 = *vstd::slice::slice_index_get(buffer, pos + 2);
    let b3 = *vstd::slice::slice_index_get(buffer, pos + 3);
    b0 as u32 + b1 as u32 * 0x100 + b2 as u32 * 0x10000 + b3 as u32 * 0x1000000
}

/// One decoded change-notification record.
pub struct NotifyRecord {
    /// The watch descriptor the record belongs to, as an opaque identifier.
    pub wd: u32,
    /// The record's event mask.
    pub mask: u32,
    /// The record's rename cookie; decoded but unused here.
    pub cookie: u32,
    /// The entry name, stripped of its NUL padding; empty for records about
    /// the watched directory itself.
    pub name: Vec<u8>,
}

/// The name length the record at `pos` declares.
pub open spec fn declared_name_len(buffer: Seq<u8>, pos: int) -> int {
    le_u32(buffer.subrange(pos + 12, pos + 16))
}

/// Whether a whole record — fixed header plus declared name field — lies
/// within `buffer[pos..end]`.
pub open spec fn record_fits(buffer: Seq<u8>, end: int, pos: int) -> bool {
    &&& pos + EVENT_HEADER_SIZE <= end
    &&& pos + EVENT_HEADER_SIZE + declared_name_len(buffer, pos) <= end
}

/// Decodes the record at `pos` in `buffer[..end]`, validating the declared
/// name length against the remaining bytes before trusting it. Returns the
/// record and the position right after it; the position strictly advances, so
/// a decode loop terminates.
pub fn decode_record(buffer: &[u8], end: usize, pos: usize) -> (r: Result<
    (NotifyRecord, usize),
    Error,
>)
    requires
        end <= buffer@.len(),
        pos < end,
    ensures
        r is Ok <==> record_fits(buffer@, end as int, pos as int),
        r matches Ok((rec, next)) ==> {
            &&& rec.wd == le_u32(buffer@.subrange(pos as int, pos as int + 4))
            &&& rec.mask == le_u32(buffer@.subrange(pos as int + 4, pos as int + 8))
            &&& rec.cookie == le_u32(buffer@.subrange(pos as int + 8, pos as int + 12))
            &&& rec.name@ == c_name(
                buffer@.subrange(
                    pos as int + EVENT_HEADER_SIZE,
                    pos as int + EVENT_HEADER_SIZE + declared_name_len(buffer@, pos as int),
                ),
            )
            &&& next == pos + EVENT_HEADER_SIZE + declared_name_len(buffer@, pos as int)
            &&& pos < next <= end
        },
        r is Err ==> r == Err::<(NotifyRecord, usize), Error>(Error::TruncatedRecord),
{
    if end - pos < EVENT_HEADER_SIZE {
        return Err(Error::TruncatedRecord);
    }
    let wd = read_u32_le(buffer, pos);
    let mask = read_u32_le(buffer, pos + 4);
    let cookie = read_u32_le(buffer, pos + 8);
    let name_len = read_u32_le(buffer, pos + 12) as usize;
    if name_len > end - pos - EVENT_HEADER_SIZE {
        return Err(Error::TruncatedRecord);
    }
    let name_start = pos + EVENT_HEADER_SIZE;
    let ghost field = buffer@.subrange(name_start as int, name_start as int + name_len as int);
    proof {
        lemma_nul_index(field);
    }
    let mut j: usize = 0;
    #[verifier::loop_isolation(false)]
    while j < name_len && *vstd::slice::slice_index_get(buffer, name_start + j) != 0
        invariant
            j <= name_len,
            forall|m: int| 0 <= m < j ==> field[m] != 0,
        decreases name_len - j,
    {
        j = j + 1;
    }
    proof {
        // `j` stops at the first NUL of the name field, or at its end.
        assert(j == nul_index(field)) by {
            if j < nul_index(field) {
                assert(field[j as int] != 0);
            }
            if j > nul_index(field) {
                assert(field[nul_index(field)] != 0);
            }
        }
    }
    let name = slice_to_vec(slice_subrange(buffer, name_start, name_start + j));
    proof {
        assert(buffer@.subrange(name_start as int, name_start as int + j as int) =~= field.take(
            j as int,
        ));
    }
    Ok((NotifyRecord { wd, mask, cookie, name }, pos + EVENT_HEADER_SIZE + name_len))
}

/// The watch-descriptor table: which directory each registered watch covers.
/// It is owned by the watcher alone; entries are added on registration and on
/// directory discovery and never removed.
pub struct WatchTree {
    map: HashMap<u32, PascalString>,
}

impl View for WatchTree {
    type V = Map<u32, PascalString>;

    closed spec fn view(&self) -> Map<u32, PascalString> {
        self.map@
    }
}

impl WatchTree {
    /// Every tracked path is a well-formed path buffer.
    pub open spec fn wf(&self) -> bool {
        forall|wd: u32| self@.contains_key(wd) ==> (#[trigger] self@[wd]).wf()
    }

    /// An empty table.
    pub fn new() -> (t: Self)
        ensures
            t.wf(),
            t@ == Map::<u32, PascalString>::empty(),
    {
        WatchTree { map: HashMap::new() }
    }

    /// Records that watch descriptor `wd` covers directory `path`.
    pub fn insert(&mut self, wd: u32, path: PascalString)
        requires
            old(self).wf(),
            path.wf(),
        ensures
            final(self).wf(),
            final(self)@ == old(self)@.insert(wd, path),
    {
        self.map.insert(wd, path);
        proof {
            assert forall|w: u32| self@.contains_key(w) implies (#[trigger] self@[w]).wf() by {
                if w != wd {
                    assert(old(self)@.contains_key(w));
                    assert(self@[w] == old(self)@[w]);
                }
            }
        }
    }

    /// The directory that watch descriptor `wd` covers, if tracked.
    pub fn get(&self, wd: u32) -> (r: Option<&PascalString>)
        ensures
            r is Some <==> self@.contains_key(wd),
            r matches Some(p) ==> *p == self@[wd],
    {
        self.map.get(&wd)
    }

    /// Number of tracked watches.
    pub fn len(&self) -> (r: usize)
        ensures
            r == self@.dom().len(),
    {
        self.map.len()
    }
}

/// A directory path joined with an entry name: `dir`, a separator, `name`.
pub open spec fn join_path(dir: Seq<u8>, name: Seq<u8>) -> Seq<u8> {
    dir + seq![SEP] + name
}

/// What one decoded record asks the watcher to do.
pub struct WatchActions {
    /// The path of an entry the record reports as created; the watcher
    /// registers a recursive watch on it when it turns out to be a directory.
    pub register: Option<PascalString>,
    /// The changed path to publish on the event bus.
    pub publish: Option<PascalString>,
}

/// Decides what to do about one decoded record: a record whose mask reports a
/// creation yields a registration candidate, and a record whose mask matches
/// `watch_mask` yields a publication, both under the full path composed from
/// the record's tracked directory and its entry name. A record that needs the
/// path of an untracked descriptor is an invariant violation.
pub fn watch_step(tree: &WatchTree, rec: &NotifyRecord, watch_mask: u32) -> (r: Result<
    WatchActions,
    Error,
>)
    requires
        tree.wf(),
    ensures
        ({
            let creates = rec.mask & IN_CREATE != 0;
            let changes = rec.mask & watch_mask != 0;
            match r {
                Ok(a) => {
                    &&& (a.register is Some <==> creates)
                    &&& (a.publish is Some <==> changes)
                    &&& (creates || changes) ==> {
                        &&& tree@.contains_key(rec.wd)
                        &&& tree@[rec.wd]@.len() + 1 + rec.name@.len() <= PATH_CAPACITY
                    }
                    &&& a.register matches Some(p) ==> p@ == join_path(tree@[rec.wd]@, rec.name@)
                        && p.wf()
                    &&& a.publish matches Some(p) ==> p@ == join_path(tree@[rec.wd]@, rec.name@)
                        && p.wf()
                },
                Err(e) => {
                    &&& (creates || changes)
                    &&& (e == Error::UnmappedWatch && !tree@.contains_key(rec.wd)) || (e
                        == Error::PathOverflow && tree@.contains_key(rec.wd) && tree@[
                        rec.wd]@.len() + 1 + rec.name@.len() > PATH_CAPACITY)
                },
            }
        }),
{
    let creates = rec.mask & IN_CREATE != 0;
    let changes = rec.mask & watch_mask != 0;
    if !creates && !changes {
        return Ok(WatchActions { register: None, publish: None });
    }
    let dir = match tree.get(rec.wd) {
        Some(dir) => dir,
        None => {
            return Err(Error::UnmappedWatch);
        },
    };
    let mut path = *dir;
    let slash = [SEP];
    match path.extend(slash.as_slice()) {
        Ok(_) => (),
        Err(e) => {
            return Err(e);
        },
    }
    match path.extend(rec.name.as_slice()) {
        Ok(_) => (),
        Err(e) => {
            return Err(e);
        },
    }
    proof {
        assert(slash@ =~= seq![SEP]);
        assert(path@ =~= join_path(tree@[rec.wd]@, rec.name@));
    }
    Ok(
        WatchActions {
            register: if creates {
                Some(path)
            } else {
                None
            },
            publish: if changes {
                Some(path)
            } else {
                None
            },
        },
    )
}

/// Law: once a newly created subdirectory's watch is registered (its
/// descriptor maps to its path), a matching change record inside it yields
/// exactly one published path — [`watch_step`] publishes at most one path per
/// record — and that path lies under the subdirectory: the directory's path
/// is a proper prefix of the published one.
pub proof fn lemma_published_path_is_under_directory(dir: Seq<u8>, name: Seq<u8>)
    ensures
        join_path(dir, name).len() == dir.len() + 1 + name.len(),
        join_path(dir, name).take(dir.len() as int) == dir,
        join_path(dir, name)[dir.len() as int] == SEP,
{
    assert(join_path(dir, name).take(dir.len() as int) =~= dir);
}

} // verus!
