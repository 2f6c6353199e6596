//! Reading a pack's directory record by record, without the pack's contents.
//!
//! A [`PackReader`] names the bytes it needs next; the caller reads them from
//! the pack and hands them over. For every pack that agrees with the bytes
//! handed over, the outcome is that pack's [`pack_directory`].
use vstd::prelude::*;
use crate::codec::utf8_check;
use vstd::utf8::valid_utf8;
use crate::envelope::be32_at;
use crate::name::copy_range;
use crate::pack::{
    after, entries_from, entries_view, entry_at, groups_from, lemma_entries_fail, pack_directory,
    read_be32, PackEntry, PackError,
};

verus! {

/// Which record a reader is at.
#[derive(PartialEq, Eq, Structural, Clone, Copy, Debug)]
pub enum ReadPhase {
    /// The header of a group.
    Header,
    /// The name length of an entry, or the end of a group.
    Entry,
    /// The name of an entry.
    Name,
    /// The offset, size and crc of an entry.
    Tail,
    /// The directory is read.
    Done,
}

/// What a reader wants next.
#[derive(Debug, PartialEq, Eq)]
pub enum PackStep {
    /// The `len` bytes of the pack at `offset`.
    Read { offset: u64, len: u64 },
    /// Nothing more: the directory, or why there is none.
    Finished(Result<Vec<PackEntry>, PackError>),
}

/// The state of reading the directory of a pack of a known length.
pub struct PackReader {
    len: u64,
    fuel: u64,
    phase: ReadPhase,
    pending: bool,
    group: u64,
    next: u32,
    count: u32,
    k: u32,
    p: u64,
    name_len: u32,
    name: Vec<u8>,
    entries: Vec<PackEntry>,
    group_first: usize,
}

/// Whether `bytes` are what `data` holds at `offset`.
pub open spec fn read_from(data: Seq<u8>, offset: int, bytes: Seq<u8>) -> bool {
    offset + bytes.len() <= data.len() && bytes == data.subrange(offset, offset + bytes.len())
}

proof fn lemma_be32_read(data: Seq<u8>, offset: int, bytes: Seq<u8>, at: int)
    requires
        read_from(data, offset, bytes),
        0 <= offset,
        0 <= at,
        at + 4 <= bytes.len(),
    ensures
        be32_at(bytes, at) == be32_at(data, offset + at),
{
    assert(bytes[at] == data[offset + at]);
    assert(bytes[at + 1] == data[offset + at + 1]);
    assert(bytes[at + 2] == data[offset + at + 2]);
    assert(bytes[at + 3] == data[offset + at + 3]);
}

/// What one step of a reader does: it asks for bytes within the pack, or ends
/// with what the pack's directory is.
pub closed spec fn stepped(s0: PackReader, s1: PackReader, r: PackStep) -> bool {
    &&& s1.wf()
    &&& match r {
        PackStep::Read { offset, len } => s1.awaits_read() && s1.wanted() == (offset as int, len as int)
            && s1.remaining() <= s0.remaining(),
        PackStep::Finished(_) => s1.is_done(),
    }
    &&& forall|data: Seq<u8>|
        #[trigger] s0.tracks(data) ==> match r {
            PackStep::Read { .. } => s1.tracks(data),
            PackStep::Finished(Ok(es)) => pack_directory(data) == Ok::<_, PackError>(entries_view(es@)),
            PackStep::Finished(Err(e)) => pack_directory(data) == Err::<
                Seq<(Seq<u8>, u32, u32, u32)>,
                PackError,
            >(e),
        }
}

impl PackReader {
    /// The entries of the groups before the current one.
    pub closed spec fn done_before(&self) -> Seq<(Seq<u8>, u32, u32, u32)> {
        entries_view(self.entries@.subrange(0, self.group_first as int))
    }

    /// The entries read of the current group.
    pub closed spec fn done_in_group(&self) -> Seq<(Seq<u8>, u32, u32, u32)> {
        entries_view(self.entries@.subrange(self.group_first as int, self.entries@.len() as int))
    }

    /// Where and how many bytes the reader wants.
    pub closed spec fn wanted(&self) -> (int, int) {
        match self.phase {
            ReadPhase::Header => (self.group as int, 8),
            ReadPhase::Entry => (self.p as int, 4),
            ReadPhase::Name => (self.p + 4, self.name_len as int),
            ReadPhase::Tail => (self.p + 4 + self.name_len, 12),
            ReadPhase::Done => (0, 0),
        }
    }

    /// How many more reads the reader may ask for, at most: three for each
    /// entry left in the current group, and a whole group's worth for each
    /// group that the chain may still visit.
    pub closed spec fn remaining(&self) -> nat {
        let per_group: nat = 3 * 0x1_0000_0000 + 1;
        let left = if self.count >= self.k {
            (self.count - self.k) as nat
        } else {
            0
        };
        let within: nat = match self.phase {
            ReadPhase::Header => (per_group - 1) as nat,
            ReadPhase::Entry => 3 * left,
            ReadPhase::Name => (3 * left - 1) as nat,
            ReadPhase::Tail => (3 * left - 2) as nat,
            ReadPhase::Done => 0,
        };
        match self.phase {
            ReadPhase::Done => 0,
            _ => self.fuel as nat * per_group + within,
        }
    }

    /// Whether the reader has ended.
    pub closed spec fn is_done(&self) -> bool {
        self.phase == ReadPhase::Done
    }

    pub closed spec fn awaits_read(&self) -> bool {
        self.pending && self.phase != ReadPhase::Done
    }

    pub closed spec fn can_step(&self) -> bool {
        !self.pending && self.phase != ReadPhase::Done
    }

    /// Bounds that hold whatever the pack holds.
    pub closed spec fn wf(&self) -> bool {
        &&& self.group_first <= self.entries@.len()
        &&& self.pending ==> self.wanted().0 + self.wanted().1 <= self.len
        &&& (self.phase == ReadPhase::Name || self.phase == ReadPhase::Tail) ==> self.p + 4 <= self.len
            && self.k < self.count
        &&& self.phase == ReadPhase::Tail ==> self.p + 4 + self.name_len <= self.len
        &&& (self.phase == ReadPhase::Entry && self.pending) ==> self.k < self.count
    }

    /// Whether the reader's state agrees with a pack holding `data`: what is
    /// left to read of `data`, after what was read, is its directory.
    pub closed spec fn tracks(&self, data: Seq<u8>) -> bool {
        &&& data.len() == self.len
        &&& self.group_first <= self.entries@.len()
        &&& pack_directory(data) == after(
            self.done_before(),
            groups_from(data, self.group as int, self.fuel as nat),
        )
        &&& self.pending ==> self.wanted().0 + self.wanted().1 <= data.len()
        &&& match self.phase {
            ReadPhase::Header => self.group_first == self.entries@.len(),
            ReadPhase::Done => true,
            _ => {
                &&& self.group + 8 <= data.len()
                &&& self.next == be32_at(data, self.group as int)
                &&& self.count == be32_at(data, self.group + 4)
                &&& self.k <= self.count
                &&& entries_from(data, self.group + 8, self.k as nat) == Ok::<_, PackError>(
                    (self.done_in_group(), self.p as int),
                )
                &&& (self.pending || self.phase != ReadPhase::Entry) ==> self.k < self.count
                &&& self.phase != ReadPhase::Entry ==> self.p + 4 <= data.len() && self.name_len
                    == be32_at(data, self.p as int)
                &&& self.phase == ReadPhase::Tail ==> self.p + 4 + self.name_len <= data.len()
                    && self.name@ == data.subrange(self.p + 4, self.p + 4 + self.name_len)
                &&& self.phase == ReadPhase::Tail && self.pending ==> valid_utf8(self.name@)
            },
        }
    }

    /// A reader for a pack of `len` bytes.
    pub fn new(len: u64) -> (r: PackReader)
        ensures
            r.can_step(),
            r.wf(),
            forall|data: Seq<u8>| data.len() == len ==> #[trigger] r.tracks(data),
    {
        let r = PackReader {
            len,
            fuel: len,
            phase: ReadPhase::Header,
            pending: false,
            group: 0,
            next: 0,
            count: 0,
            k: 0,
            p: 0,
            name_len: 0,
            name: Vec::new(),
            entries: Vec::new(),
            group_first: 0,
        };
        assert forall|data: Seq<u8>| data.len() == len implies #[trigger] r.tracks(data) by {
            assert(r.done_before() =~= Seq::<(Seq<u8>, u32, u32, u32)>::empty());
            match groups_from(data, 0, len as nat) {
                Ok(t) => {
                    assert(r.done_before() + t =~= t);
                },
                Err(_) => {},
            }
        }
        r
    }

    /// Asks for the header of the current group, or ends when it lies past
    /// the end of the pack.
    fn want_header(&mut self) -> (r: PackStep)
        requires
            old(self).phase == ReadPhase::Header,
            !old(self).pending,
            old(self).wf(),
        ensures
            stepped(*old(self), *final(self), r),
    {
        if self.group > self.len || self.len - self.group < 8 {
            self.phase = ReadPhase::Done;
            return PackStep::Finished(Err(PackError::UnexpectedEof));
        }
        self.pending = true;
        PackStep::Read { offset: self.group, len: 8 }
    }

    /// Ends with the entries read when the group chain ends here.
    fn finish_chain(&mut self) -> (r: PackStep)
        requires
            old(self).phase == ReadPhase::Entry,
            !old(self).pending,
            old(self).wf(),
            old(self).k >= old(self).count,
            old(self).next == 0,
        ensures
            stepped(*old(self), *final(self), r),
    {
        let ghost s0 = *self;
        self.phase = ReadPhase::Done;
        let mut es: Vec<PackEntry> = Vec::new();
        std::mem::swap(&mut es, &mut self.entries);
        self.group_first = 0;
        proof {
            assert forall|data: Seq<u8>| #[trigger] s0.tracks(data) implies pack_directory(data)
                == Ok::<_, PackError>(entries_view(es@)) by {
                assert(s0.k == s0.count);
                assert(s0.done_before() + s0.done_in_group() =~= entries_view(es@));
            }
        }
        PackStep::Finished(Ok(es))
    }

    /// Moves on to the group that the current one chains to.
    fn enter_next_group(&mut self)
        requires
            old(self).phase == ReadPhase::Entry,
            !old(self).pending,
            old(self).wf(),
            old(self).k >= old(self).count,
            old(self).next != 0,
            old(self).fuel > 0,
        ensures
            final(self).phase == ReadPhase::Header,
            !final(self).pending,
            final(self).wf(),
            final(self).remaining() <= old(self).remaining(),
            forall|data: Seq<u8>| #[trigger] old(self).tracks(data) ==> final(self).tracks(data),
    {
        let ghost s0 = *self;
        self.fuel = self.fuel - 1;
        self.group = self.next as u64;
        self.group_first = self.entries.len();
        self.phase = ReadPhase::Header;
        proof {
            let w: nat = 3 * 0x1_0000_0000 + 1;
            let f = s0.fuel as nat;
            assert(((f - 1) as nat) * w + (w - 1) < f * w) by (nonlinear_arith)
                requires
                    f > 0,
                    w > 1,
            ;
            assert forall|data: Seq<u8>| #[trigger] s0.tracks(data) implies self.tracks(data) by {
                assert(s0.k == s0.count);
                let es = s0.done_in_group();
                assert(self.done_before() =~= s0.done_before() + es);
                match groups_from(data, self.group as int, self.fuel as nat) {
                    Ok(t) => {
                        assert(s0.done_before() + (es + t) =~= (s0.done_before() + es) + t);
                    },
                    Err(_) => {},
                }
            }
        }
    }

    /// At the end of a group: the directory when the chain ends, else the
    /// header of the next group.
    fn end_group(&mut self) -> (r: PackStep)
        requires
            old(self).phase == ReadPhase::Entry,
            !old(self).pending,
            old(self).wf(),
            old(self).k >= old(self).count,
        ensures
            stepped(*old(self), *final(self), r),
    {
        if self.next == 0 {
            return self.finish_chain();
        }
        if self.fuel == 0 {
            self.phase = ReadPhase::Done;
            return PackStep::Finished(Err(PackError::InvalidData));
        }
        let ghost s0 = *self;
        self.enter_next_group();
        let ghost s1 = *self;
        let r = self.want_header();
        proof {
            assert forall|data: Seq<u8>| #[trigger] s0.tracks(data) implies match r {
                PackStep::Read { .. } => self.tracks(data),
                PackStep::Finished(Ok(es)) => pack_directory(data) == Ok::<_, PackError>(entries_view(es@)),
                PackStep::Finished(Err(e)) => pack_directory(data) == Err::<
                    Seq<(Seq<u8>, u32, u32, u32)>,
                    PackError,
                >(e),
            } by {
                assert(s1.tracks(data));
            }
        }
        r
    }

    /// Asks for the name length of the next entry of the group.
    fn want_entry(&mut self) -> (r: PackStep)
        requires
            old(self).phase == ReadPhase::Entry,
            !old(self).pending,
            old(self).wf(),
            old(self).k < old(self).count,
        ensures
            stepped(*old(self), *final(self), r),
    {
        let ghost s0 = *self;
        if self.p > self.len || self.len - self.p < 4 {
            self.phase = ReadPhase::Done;
            proof {
                assert forall|data: Seq<u8>| #[trigger] s0.tracks(data) implies pack_directory(data)
                    == Err::<Seq<(Seq<u8>, u32, u32, u32)>, PackError>(PackError::UnexpectedEof) by {
                    lemma_entries_fail(data, s0.group + 8, s0.k as nat, s0.count as nat, PackError::UnexpectedEof);
                }
            }
            return PackStep::Finished(Err(PackError::UnexpectedEof));
        }
        self.pending = true;
        PackStep::Read { offset: self.p, len: 4 }
    }

    /// Asks for the name of the current entry.
    fn want_name(&mut self) -> (r: PackStep)
        requires
            old(self).phase == ReadPhase::Name,
            !old(self).pending,
            old(self).wf(),
        ensures
            stepped(*old(self), *final(self), r),
    {
        let ghost s0 = *self;
        if self.len - (self.p + 4) < self.name_len as u64 {
            self.phase = ReadPhase::Done;
            proof {
                assert forall|data: Seq<u8>| #[trigger] s0.tracks(data) implies pack_directory(data)
                    == Err::<Seq<(Seq<u8>, u32, u32, u32)>, PackError>(PackError::UnexpectedEof) by {
                    lemma_entries_fail(data, s0.group + 8, s0.k as nat, s0.count as nat, PackError::UnexpectedEof);
                }
            }
            return PackStep::Finished(Err(PackError::UnexpectedEof));
        }
        self.pending = true;
        PackStep::Read { offset: self.p + 4, len: self.name_len as u64 }
    }

    /// Checks the name of the current entry and asks for the rest of it.
    fn want_tail(&mut self) -> (r: PackStep)
        requires
            old(self).phase == ReadPhase::Tail,
            !old(self).pending,
            old(self).wf(),
        ensures
            stepped(*old(self), *final(self), r),
    {
        let ghost s0 = *self;
        if !utf8_check(self.name.as_slice()) {
            self.phase = ReadPhase::Done;
            proof {
                assert forall|data: Seq<u8>| #[trigger] s0.tracks(data) implies pack_directory(data)
                    == Err::<Seq<(Seq<u8>, u32, u32, u32)>, PackError>(PackError::InvalidData) by {
                    lemma_entries_fail(data, s0.group + 8, s0.k as nat, s0.count as nat, PackError::InvalidData);
                }
            }
            return PackStep::Finished(Err(PackError::InvalidData));
        }
        let name_end = self.p + 4 + self.name_len as u64;
        if self.len - name_end < 12 {
            self.phase = ReadPhase::Done;
            proof {
                assert forall|data: Seq<u8>| #[trigger] s0.tracks(data) implies pack_directory(data)
                    == Err::<Seq<(Seq<u8>, u32, u32, u32)>, PackError>(PackError::UnexpectedEof) by {
                    lemma_entries_fail(data, s0.group + 8, s0.k as nat, s0.count as nat, PackError::UnexpectedEof);
                }
            }
            return PackStep::Finished(Err(PackError::UnexpectedEof));
        }
        self.pending = true;
        PackStep::Read { offset: name_end, len: 12 }
    }

    /// Settles what needs no bytes, then names the bytes wanted next, or ends
    /// with the directory or the reason there is none.
    pub fn next_read(&mut self) -> (r: PackStep)
        requires
            old(self).can_step(),
            old(self).wf(),
        ensures
            final(self).wf(),
            match r {
                PackStep::Read { offset, len } => final(self).awaits_read() && final(self).wanted() == (
                    offset as int,
                    len as int,
                ) && final(self).remaining() <= old(self).remaining(),
                PackStep::Finished(_) => final(self).is_done(),
            },
            forall|data: Seq<u8>|
                #[trigger] old(self).tracks(data) ==> match r {
                    PackStep::Read { .. } => final(self).tracks(data),
                    PackStep::Finished(Ok(es)) => pack_directory(data) == Ok::<_, PackError>(
                        entries_view(es@),
                    ),
                    PackStep::Finished(Err(e)) => pack_directory(data) == Err::<
                        Seq<(Seq<u8>, u32, u32, u32)>,
                        PackError,
                    >(e),
                },
    {
        match self.phase {
            ReadPhase::Header => self.want_header(),
            ReadPhase::Entry => if self.k < self.count {
                self.want_entry()
            } else {
                self.end_group()
            },
            ReadPhase::Name => self.want_name(),
            ReadPhase::Tail => self.want_tail(),
            ReadPhase::Done => PackStep::Finished(Err(PackError::InvalidData)),
        }
    }

    /// Takes the bytes that the last [`PackReader::next_read`] asked for.
    pub fn supply(&mut self, bytes: &[u8])
        requires
            old(self).awaits_read(),
            old(self).wf(),
            bytes@.len() == old(self).wanted().1,
        ensures
            final(self).can_step(),
            final(self).wf(),
            final(self).remaining() < old(self).remaining(),
            forall|data: Seq<u8>|
                #[trigger] old(self).tracks(data) && read_from(data, old(self).wanted().0, bytes@)
                    ==> final(self).tracks(data),
    {
        let ghost s0 = *self;
        self.pending = false;
        match self.phase {
            ReadPhase::Header => {
                self.next = read_be32(bytes, 0);
                self.count = read_be32(bytes, 4);
                self.k = 0;
                self.p = self.group + 8;
                self.phase = ReadPhase::Entry;
                proof {
                    assert forall|data: Seq<u8>|
                        #[trigger] s0.tracks(data) && read_from(data, s0.wanted().0, bytes@) implies self.tracks(data) by {
                        lemma_be32_read(data, s0.group as int, bytes@, 0);
                        lemma_be32_read(data, s0.group as int, bytes@, 4);
                        assert(self.done_in_group() =~= Seq::<(Seq<u8>, u32, u32, u32)>::empty());
                        assert(self.done_before() == s0.done_before());
                    }
                }
            },
            ReadPhase::Entry => {
                self.name_len = read_be32(bytes, 0);
                self.phase = ReadPhase::Name;
                proof {
                    assert forall|data: Seq<u8>|
                        #[trigger] s0.tracks(data) && read_from(data, s0.wanted().0, bytes@) implies self.tracks(data) by {
                        lemma_be32_read(data, s0.p as int, bytes@, 0);
                    }
                }
            },
            ReadPhase::Name => {
                self.name = copy_range(bytes, 0, bytes.len());
                self.phase = ReadPhase::Tail;
                proof {
                    assert(self.name@ =~= bytes@);
                }
            },
            ReadPhase::Tail => {
                let offset = read_be32(bytes, 0);
                let size = read_be32(bytes, 4);
                let crc = read_be32(bytes, 8);
                let mut name: Vec<u8> = Vec::new();
                std::mem::swap(&mut name, &mut self.name);
                let e = PackEntry { name, offset, size, crc };
                self.entries.push(e);
                self.k = self.k + 1;
                self.p = self.p + 4 + self.name_len as u64 + 12;
                self.phase = ReadPhase::Entry;
                proof {
                    assert forall|data: Seq<u8>|
                        #[trigger] s0.tracks(data) && read_from(data, s0.wanted().0, bytes@) implies self.tracks(data) by {
                        let name_end = s0.p + 4 + s0.name_len;
                        lemma_be32_read(data, name_end, bytes@, 0);
                        lemma_be32_read(data, name_end, bytes@, 4);
                        lemma_be32_read(data, name_end, bytes@, 8);
                        assert(self.entries@.subrange(0, self.group_first as int) =~= s0.entries@.subrange(
                            0,
                            s0.group_first as int,
                        ));
                        assert(self.done_in_group() =~= s0.done_in_group().push(e@));
                    }
                }
            },
            ReadPhase::Done => {},
        }
    }
}

} // verus!
