//! The directory of a pack archive.
//!
//! A pack is a chain of groups. A group starts with the absolute offset of the
//! next group (0 ends the chain) and the number of entries that follow; an
//! entry is a name length, the name in UTF-8, then the absolute offset, the
//! size and the crc of its data. Every number is a big-endian `u32`.
use vstd::prelude::*;
use crate::codec::utf8_check;
use vstd::utf8::valid_utf8;
use crate::envelope::be32_at;
use crate::name::copy_range;

verus! {

/// One record of a pack's directory.
#[derive(Debug, PartialEq, Eq)]
pub struct PackEntry {
    pub name: Vec<u8>,
    pub offset: u32,
    pub size: u32,
    pub crc: u32,
}

impl PackEntry {
    pub open spec fn view(&self) -> (Seq<u8>, u32, u32, u32) {
        (self.name@, self.offset, self.size, self.crc)
    }
}

pub open spec fn entries_view(es: Seq<PackEntry>) -> Seq<(Seq<u8>, u32, u32, u32)> {
    es.map_values(|e: PackEntry| e@)
}

/// Why a directory could not be read.
#[derive(PartialEq, Eq, Structural, Clone, Copy, Debug)]
pub enum PackError {
    /// The data ends inside a record.
    UnexpectedEof,
    /// A name is not UTF-8, or the group chain runs in a circle.
    InvalidData,
}

/// The entry that starts at `p`, and the position after it.
pub open spec fn entry_at(data: Seq<u8>, p: int) -> Result<((Seq<u8>, u32, u32, u32), int), PackError> {
    if p + 4 > data.len() {
        Err(PackError::UnexpectedEof)
    } else {
        let name_start = p + 4;
        let name_end = name_start + be32_at(data, p);
        if name_end > data.len() {
            Err(PackError::UnexpectedEof)
        } else if !valid_utf8(data.subrange(name_start, name_end)) {
            Err(PackError::InvalidData)
        } else if name_end + 12 > data.len() {
            Err(PackError::UnexpectedEof)
        } else {
            Ok(
                (
                    (
                        data.subrange(name_start, name_end),
                        be32_at(data, name_end),
                        be32_at(data, name_end + 4),
                        be32_at(data, name_end + 8),
                    ),
                    name_end + 12,
                ),
            )
        }
    }
}

/// The first `count` entries that start at `p`, and the position after them.
pub open spec fn entries_from(data: Seq<u8>, p: int, count: nat) -> Result<
    (Seq<(Seq<u8>, u32, u32, u32)>, int),
    PackError,
>
    decreases count,
{
    if count == 0 {
        Ok((Seq::empty(), p))
    } else {
        match entries_from(data, p, (count - 1) as nat) {
            Err(e) => Err(e),
            Ok((es, q)) => match entry_at(data, q) {
                Err(e) => Err(e),
                Ok((e, r)) => Ok((es.push(e), r)),
            },
        }
    }
}

/// The entries of the group at `pos` and of the groups chained after it;
/// `fuel` bounds how many more groups may follow.
pub open spec fn groups_from(data: Seq<u8>, pos: int, fuel: nat) -> Result<
    Seq<(Seq<u8>, u32, u32, u32)>,
    PackError,
>
    decreases fuel,
{
    if pos + 8 > data.len() {
        Err(PackError::UnexpectedEof)
    } else {
        let next = be32_at(data, pos);
        match entries_from(data, pos + 8, be32_at(data, pos + 4) as nat) {
            Err(e) => Err(e),
            Ok((es, _)) => if next == 0 {
                Ok(es)
            } else if fuel == 0 {
                Err(PackError::InvalidData)
            } else {
                match groups_from(data, next as int, (fuel - 1) as nat) {
                    Err(e) => Err(e),
                    Ok(rest) => Ok(es + rest),
                }
            },
        }
    }
}

/// The directory of a pack, group by group from offset 0. A chain of more
/// groups than the pack has bytes must visit some group twice and would never
/// end, so it is refused.
pub open spec fn pack_directory(data: Seq<u8>) -> Result<Seq<(Seq<u8>, u32, u32, u32)>, PackError> {
    groups_from(data, 0, data.len())
}

pub open spec fn after(es: Seq<(Seq<u8>, u32, u32, u32)>, r: Result<Seq<(Seq<u8>, u32, u32, u32)>, PackError>) -> Result<
    Seq<(Seq<u8>, u32, u32, u32)>,
    PackError,
> {
    match r {
        Ok(rest) => Ok(es + rest),
        Err(e) => Err(e),
    }
}

pub proof fn lemma_entries_fail(data: Seq<u8>, p: int, k: nat, count: nat, e: PackError)
    requires
        k < count,
        entries_from(data, p, k) is Ok,
        entry_at(data, entries_from(data, p, k)->Ok_0.1) == Err::<((Seq<u8>, u32, u32, u32), int), PackError>(e),
    ensures
        entries_from(data, p, count) == Err::<(Seq<(Seq<u8>, u32, u32, u32)>, int), PackError>(e),
    decreases count,
{
    if count > k + 1 {
        lemma_entries_fail(data, p, k, (count - 1) as nat, e);
    }
}

/// The big-endian `u32` at `pos`.
pub fn read_be32(data: &[u8], pos: usize) -> (r: u32)
    requires
        pos + 4 <= data@.len(),
    ensures
        r == be32_at(data@, pos as int),
{
    (data[pos] as u32) * 0x1000000 + (data[pos + 1] as u32) * 0x10000 + (data[pos + 2] as u32)
        * 0x100 + (data[pos + 3] as u32)
}

/// Reads the entry at `p`.
fn read_entry(data: &[u8], p: usize) -> (r: Result<(PackEntry, usize), PackError>)
    ensures
        match r {
            Ok((e, q)) => entry_at(data@, p as int) == Ok::<_, PackError>((e@, q as int)),
            Err(err) => entry_at(data@, p as int) == Err::<((Seq<u8>, u32, u32, u32), int), PackError>(err),
        },
{
    let n = data.len();
    if p > n || n - p < 4 {
        return Err(PackError::UnexpectedEof);
    }
    let name_len = read_be32(data, p) as usize;
    let name_start = p + 4;
    if n - name_start < name_len {
        return Err(PackError::UnexpectedEof);
    }
    let name_end = name_start + name_len;
    if !utf8_check(&data[name_start..name_end]) {
        return Err(PackError::InvalidData);
    }
    if n - name_end < 12 {
        return Err(PackError::UnexpectedEof);
    }
    let name = copy_range(data, name_start, name_end);
    let offset = read_be32(data, name_end);
    let size = read_be32(data, name_end + 4);
    let crc = read_be32(data, name_end + 8);
    Ok((PackEntry { name, offset, size, crc }, name_end + 12))
}

/// Reads the directory of a pack held in `data`.
pub fn parse_pack_directory(data: &[u8]) -> (r: Result<Vec<PackEntry>, PackError>)
    ensures
        match r {
            Ok(es) => pack_directory(data@) == Ok::<_, PackError>(entries_view(es@)),
            Err(e) => pack_directory(data@) == Err::<Seq<(Seq<u8>, u32, u32, u32)>, PackError>(e),
        },
{
    let n = data.len();
    let mut out: Vec<PackEntry> = Vec::new();
    let mut pos: usize = 0;
    let mut fuel: usize = n;
    loop
        invariant
            n == data@.len(),
            pack_directory(data@) == after(entries_view(out@), groups_from(data@, pos as int, fuel as nat)),
        decreases fuel,
    {
        if pos > n || n - pos < 8 {
            return Err(PackError::UnexpectedEof);
        }
        let next = read_be32(data, pos);
        let count = read_be32(data, pos + 4);
        let ghost before = entries_view(out@);
        let mut p: usize = pos + 8;
        let mut k: u32 = 0;
        while k < count
            invariant
                n == data@.len(),
                k <= count,
                pos + 8 <= n,
                count == be32_at(data@, pos + 4),
                next == be32_at(data@, pos as int),
                pack_directory(data@) == after(before, groups_from(data@, pos as int, fuel as nat)),
                entries_from(data@, pos + 8, k as nat) is Ok,
                entries_from(data@, pos + 8, k as nat)->Ok_0.1 == p,
                entries_view(out@) == before + entries_from(data@, pos + 8, k as nat)->Ok_0.0,
            decreases count - k,
        {
            match read_entry(data, p) {
                Ok((e, q)) => {
                    let ghost old_out = out@;
                    out.push(e);
                    p = q;
                    k = k + 1;
                    assert(entries_view(out@) =~= entries_view(old_out).push(e@));
                    assert(entries_view(out@) =~= before + entries_from(data@, pos + 8, k as nat)->Ok_0.0);
                },
                Err(err) => {
                    proof {
                        lemma_entries_fail(data@, pos + 8, k as nat, count as nat, err);
                        assert(groups_from(data@, pos as int, fuel as nat) == Err::<
                            Seq<(Seq<u8>, u32, u32, u32)>,
                            PackError,
                        >(err));
                    }
                    return Err(err);
                },
            }
        }
        if next == 0 {
            assert(entries_view(out@) =~= before + entries_from(data@, pos + 8, count as nat)->Ok_0.0);
            return Ok(out);
        }
        if fuel == 0 {
            return Err(PackError::InvalidData);
        }
        proof {
            let es = entries_from(data@, pos + 8, count as nat)->Ok_0.0;
            let rest = groups_from(data@, next as int, (fuel - 1) as nat);
            match rest {
                Ok(t) => {
                    assert(before + (es + t) =~= (before + es) + t);
                },
                Err(_) => {},
            }
        }
        fuel = fuel - 1;
        pos = next as usize;
    }
}

} // verus!
