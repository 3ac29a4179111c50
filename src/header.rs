//! The container header: just enough of it to find the export table and the
//! bulk-data start field.
use crate::bytes::{fits, le_i32, le_u32, read_i32_at, read_u32_at};
use crate::{Logger, PatchError, PatchFixer};
use vstd::prelude::*;

verus! {

/// The number every header starts with, stored little-endian.
pub const UASSET_MAGIC: u32 = 0x9E2A83C1;

/// What the header reader hands on to the later steps.
#[derive(Debug, Clone, Copy, PartialEq, Eq, Structural)]
pub struct HeaderDescriptor {
    pub export_count: u32,
    pub export_table_offset: u32,
    /// Where the 8-byte bulk-data start field lies in the header.
    pub bulk_data_field_offset: usize,
}

/// Position of the first field after the version block (magic, legacy
/// version, engine versions, licensee version, custom versions).
pub open spec fn version_block_end(b: Seq<u8>) -> Result<int, PatchError> {
    if !fits(b, 0, 4) {
        Err(PatchError::Io)
    } else if le_u32(b, 0) != UASSET_MAGIC {
        Err(PatchError::BadMagic)
    } else if !fits(b, 4, 4) {
        Err(PatchError::Io)
    } else {
        let legacy = le_i32(b, 4);
        // a legacy version other than -4 is followed by one more 4-byte field
        let ue4 = if legacy != -4 { 12int } else { 8int };
        if !fits(b, ue4, 4) {
            Err(PatchError::Io)
        } else if le_i32(b, ue4) != 0 {
            Err(PatchError::UnsupportedVersion)
        } else {
            // the engine-5 version is present from legacy version -8 on
            let licensee = if legacy <= -8 { ue4 + 8 } else { ue4 + 4 };
            if legacy <= -2 {
                let count_at = licensee + 4;
                if !fits(b, count_at, 4) {
                    Err(PatchError::Io)
                } else {
                    let count = le_i32(b, count_at);
                    // each custom version: a 16-byte id and a 4-byte number
                    Ok(count_at + 4 + if count > 0 { 20 * count } else { 0 })
                }
            } else {
                Ok(licensee + 4)
            }
        }
    }
}

/// Where a run of `n` length-prefixed strings that starts at `p` ends, or
/// `None` when a length prefix lies past the end of `b`.
pub open spec fn names_end(b: Seq<u8>, p: int, n: nat) -> Option<int>
    decreases n,
{
    if n == 0 {
        Some(p)
    } else if !fits(b, p, 4) {
        None
    } else {
        names_end(b, p + 4 + le_u32(b, p), (n - 1) as nat)
    }
}

/// The header's layout: what the reader returns for the bytes `b`.
///
/// A field that lies past the end gives `Io`. Only the fields that decide a
/// later position, the version checks and the bulk-data field are tested;
/// every other field lies before one of them.
pub open spec fn header_layout(b: Seq<u8>) -> Result<HeaderDescriptor, PatchError> {
    match version_block_end(b) {
        Err(e) => Err(e),
        Ok(six) => {
            // six: section-six offset; then the folder name
            let folder = six + 4;
            if !fits(b, folder, 4) {
                Err(PatchError::Io)
            } else {
                // package flags, then fifteen 32-bit counts and offsets, then a 16-byte guid
                let flags = folder + 4 + le_u32(b, folder);
                let generations = flags + 80;
                if !fits(b, generations, 4) {
                    Err(PatchError::Io)
                } else {
                    let name1 = generations + 4 + 8 * le_u32(b, generations) + 10;
                    if !fits(b, name1, 4) {
                        Err(PatchError::Io)
                    } else {
                        let name2 = name1 + 4 + le_u32(b, name1) + 10;
                        if !fits(b, name2, 4) {
                            Err(PatchError::Io)
                        } else {
                            let cookies = name2 + 4 + le_u32(b, name2) + 12;
                            if !fits(b, cookies, 4) {
                                Err(PatchError::Io)
                            } else {
                                match names_end(b, cookies + 4, le_u32(b, cookies) as nat) {
                                    None => Err(PatchError::Io),
                                    Some(end) => {
                                        // end: asset-registry offset, then the bulk-data field
                                        if !fits(b, end + 4, 8) {
                                            Err(PatchError::Io)
                                        } else {
                                            Ok(
                                                HeaderDescriptor {
                                                    export_count: le_u32(b, flags + 28),
                                                    export_table_offset: le_u32(b, flags + 32),
                                                    bulk_data_field_offset: (end + 4) as usize,
                                                },
                                            )
                                        }
                                    },
                                }
                            }
                        }
                    }
                }
            }
        },
    }
}

fn u32_field(b: &[u8], p: u128) -> (r: Result<u32, PatchError>)
    ensures
        r == (if fits(b@, p as int, 4) {
            Ok(le_u32(b@, p as int))
        } else {
            Err::<u32, PatchError>(PatchError::Io)
        }),
{
    let len = b.len() as u128;
    if p <= len && 4 <= len - p {
        Ok(read_u32_at(b, p as usize))
    } else {
        Err(PatchError::Io)
    }
}

fn i32_field(b: &[u8], p: u128) -> (r: Result<i32, PatchError>)
    ensures
        r == (if fits(b@, p as int, 4) {
            Ok(le_i32(b@, p as int))
        } else {
            Err::<i32, PatchError>(PatchError::Io)
        }),
{
    let len = b.len() as u128;
    if p <= len && 4 <= len - p {
        Ok(read_i32_at(b, p as usize))
    } else {
        Err(PatchError::Io)
    }
}

fn read_version_block(b: &[u8]) -> (r: Result<u128, PatchError>)
    ensures
        match version_block_end(b@) {
            Ok(p) => r == Ok::<u128, PatchError>(p as u128) && p <= b@.len() + 0x10_0000_0000,
            Err(e) => r == Err::<u128, PatchError>(e),
        },
{
    let magic = u32_field(b, 0)?;
    if magic != UASSET_MAGIC {
        return Err(PatchError::BadMagic);
    }
    let legacy = i32_field(b, 4)?;
    let ue4: u128 = if legacy != -4 { 12 } else { 8 };
    let version = i32_field(b, ue4)?;
    if version != 0 {
        return Err(PatchError::UnsupportedVersion);
    }
    let licensee: u128 = if legacy <= -8 { ue4 + 8 } else { ue4 + 4 };
    if legacy <= -2 {
        let count_at = licensee + 4;
        let count = i32_field(b, count_at)?;
        let skip: u128 = if count > 0 { 20 * (count as u128) } else { 0 };
        Ok(count_at + 4 + skip)
    } else {
        Ok(licensee + 4)
    }
}

fn skip_names(b: &[u8], p: u128, n: u32) -> (r: Option<u128>)
    requires
        p <= b@.len() + 0x1_0000_0010,
    ensures
        match names_end(b@, p as int, n as nat) {
            Some(e) => r == Some(e as u128) && p <= e <= b@.len() + 0x1_0000_0010,
            None => r is None,
        },
{
    let blen = b.len();
    let mut q = p;
    let mut i: u32 = 0;
    while i < n
        invariant
            blen == b@.len(),
            i <= n,
            p <= q <= b@.len() + 0x1_0000_0010,
            names_end(b@, p as int, n as nat) == names_end(b@, q as int, (n - i) as nat),
        decreases n - i,
    {
        match u32_field(b, q) {
            Err(_) => {
                return None;
            },
            Ok(len) => {
                q = q + 4 + len as u128;
            },
        }
        i = i + 1;
    }
    Some(q)
}

impl<LogProvider: Logger> PatchFixer<LogProvider> {
    /// Reads the header in `f` up to the bulk-data start field and returns the
    /// export count, the export table's offset and that field's position.
    pub fn read_uasset(&self, f: &[u8]) -> (r: Result<HeaderDescriptor, PatchError>)
        ensures
            r == header_layout(f@),
    {
        let len = f.len() as u128;
        let six = read_version_block(f)?;
        let folder = six + 4;
        let folder_len = u32_field(f, folder)?;
        let flags = folder + 4 + folder_len as u128;
        let generations = flags + 80;
        let generation_count = u32_field(f, generations)?;
        let name1 = generations + 4 + 8 * (generation_count as u128) + 10;
        let name1_len = u32_field(f, name1)?;
        let name2 = name1 + 4 + name1_len as u128 + 10;
        let name2_len = u32_field(f, name2)?;
        let cookies = name2 + 4 + name2_len as u128 + 12;
        let cookie_count = u32_field(f, cookies)?;
        let end = match skip_names(f, cookies + 4, cookie_count) {
            None => {
                return Err(PatchError::Io);
            },
            Some(e) => e,
        };
        let bulk = end + 4;
        if bulk > len || 8 > len - bulk {
            return Err(PatchError::Io);
        }
        let export_count = read_u32_at(f, (flags + 28) as usize);
        let export_table_offset = read_u32_at(f, (flags + 32) as usize);
        Ok(
            HeaderDescriptor {
                export_count,
                export_table_offset,
                bulk_data_field_offset: bulk as usize,
            },
        )
    }
}

/// Where the header reader finds its fields, in closed form. With `x` the
/// bytes that the version block's optional fields add, the section-six field
/// lies at `16 + x`; from there the export count and table offset follow the
/// folder name, and the bulk-data field follows the generations, the two
/// names, the fixed blocks and the cookie names.
pub proof fn lemma_header_positions(b: Seq<u8>)
    requires
        header_layout(b) is Ok,
        b.len() <= usize::MAX,
    ensures
        ({
            let legacy = le_i32(b, 4);
            let optional = (if legacy != -4 { 4int } else { 0int }) + (if legacy <= -8 {
                4int
            } else {
                0int
            });
            let count = le_i32(b, 16 + optional);
            let x = optional + (if legacy <= -2 {
                4 + if count > 0 { 20 * count } else { 0 }
            } else {
                0int
            });
            let six = 16 + x;
            let l1 = le_u32(b, six + 4) as int;
            let g = le_u32(b, six + 88 + l1) as int;
            let l2 = le_u32(b, six + 102 + l1 + 8 * g) as int;
            let l3 = le_u32(b, six + 116 + l1 + 8 * g + l2) as int;
            let k = le_u32(b, six + 132 + l1 + 8 * g + l2 + l3);
            let d = header_layout(b)->Ok_0;
            &&& le_u32(b, 0) == UASSET_MAGIC
            &&& d.export_count == le_u32(b, six + 36 + l1)
            &&& d.export_table_offset == le_u32(b, six + 40 + l1)
            &&& names_end(b, six + 136 + l1 + 8 * g + l2 + l3, k as nat) is Some
            &&& d.bulk_data_field_offset as int == names_end(
                b,
                six + 136 + l1 + 8 * g + l2 + l3,
                k as nat,
            )->Some_0 + 4
        }),
{
}

} // verus!
