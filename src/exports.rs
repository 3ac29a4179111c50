//! The export table: one fixed-layout record per export.
use crate::bytes::{fits, le_i64, read_i64_at};
use crate::{Logger, PatchError, PatchFixer};
use vstd::prelude::*;

verus! {

/// Length of one export record: seven 32-bit identifier fields, the 64-bit
/// serialized size and offset, and thirteen 32-bit flag and dependency fields.
pub const EXPORT_RECORD_LEN: usize = 96;

/// Where the serialized size lies within an export record, just after the
/// object flags.
pub const SERIAL_SIZE_AT: usize = 28;

/// Where the serialized offset lies within an export record.
pub const SERIAL_OFFSET_AT: usize = 36;

/// Start of export record `i` of a table at `base`.
pub open spec fn record_start(base: int, i: int) -> int {
    base + EXPORT_RECORD_LEN * i
}

/// Serialized size of export `i`.
pub open spec fn export_size(b: Seq<u8>, base: int, i: int) -> i64 {
    le_i64(b, record_start(base, i) + SERIAL_SIZE_AT)
}

/// Serialized offset of export `i`.
pub open spec fn export_offset(b: Seq<u8>, base: int, i: int) -> i64 {
    le_i64(b, record_start(base, i) + SERIAL_OFFSET_AT)
}

/// The `n` records of a table at `base` lie inside `b`.
pub open spec fn table_fits(b: Seq<u8>, base: int, n: int) -> bool {
    n == 0 || fits(b, base, EXPORT_RECORD_LEN * n)
}

/// Position of the total package size field: just after the last record's
/// object flags.
pub open spec fn final_size_field(base: int, n: int) -> int {
    record_start(base, n - 1) + SERIAL_SIZE_AT
}

/// How many of `n` records from `base` have their serialized size and offset
/// inside `len` bytes: the records are read in order and a record's pair is
/// taken once its first 44 bytes are read.
pub open spec fn pairs_read(len: int, base: int, n: nat) -> nat
    decreases n,
{
    if n == 0 || base + SERIAL_OFFSET_AT + 8 > len {
        0
    } else {
        1 + pairs_read(len, base + EXPORT_RECORD_LEN, (n - 1) as nat)
    }
}

impl<LogProvider: Logger> PatchFixer<LogProvider> {
    /// Reads `exp_cnt` export records from the table at `exp_offset` in `f`,
    /// appends their serialized sizes to `size_buf` and offsets to
    /// `offset_buf`, in table order, and returns the position of the total
    /// package size field (`None` for an empty table).
    ///
    /// When the table runs past the end of `f`, the pairs of the records read
    /// before that point stay appended and the result is `Io`.
    pub fn read_exports(
        &mut self,
        f: &[u8],
        size_buf: &mut Vec<i64>,
        offset_buf: &mut Vec<i64>,
        exp_offset: u32,
        exp_cnt: u32,
    ) -> (r: Result<Option<usize>, PatchError>)
        ensures
            table_fits(f@, exp_offset as int, exp_cnt as int) ==> {
                &&& r == Ok::<Option<usize>, PatchError>(
                    if exp_cnt == 0 {
                        None
                    } else {
                        Some(final_size_field(exp_offset as int, exp_cnt as int) as usize)
                    },
                )
                &&& final(size_buf)@ == old(size_buf)@ + Seq::new(
                    exp_cnt as nat,
                    |i: int| export_size(f@, exp_offset as int, i),
                )
                &&& final(offset_buf)@ == old(offset_buf)@ + Seq::new(
                    exp_cnt as nat,
                    |i: int| export_offset(f@, exp_offset as int, i),
                )
            },
            !table_fits(f@, exp_offset as int, exp_cnt as int) ==> {
                &&& r == Err::<Option<usize>, PatchError>(PatchError::Io)
                &&& final(size_buf)@ == old(size_buf)@ + Seq::new(
                    pairs_read(f@.len() as int, exp_offset as int, exp_cnt as nat),
                    |i: int| export_size(f@, exp_offset as int, i),
                )
                &&& final(offset_buf)@ == old(offset_buf)@ + Seq::new(
                    pairs_read(f@.len() as int, exp_offset as int, exp_cnt as nat),
                    |i: int| export_offset(f@, exp_offset as int, i),
                )
            },
    {
        assert(old(size_buf)@ + Seq::new(0, |i: int| export_size(f@, exp_offset as int, i))
            =~= old(size_buf)@);
        assert(old(offset_buf)@ + Seq::new(0, |i: int| export_offset(f@, exp_offset as int, i))
            =~= old(offset_buf)@);
        if exp_cnt == 0 {
            return Ok(None);
        }
        let len = f.len();
        if exp_offset as u128 > len as u128 {
            return Err(PatchError::Io);
        }
        let mut i: u32 = 0;
        let mut pos: usize = exp_offset as usize;
        let mut final_at: usize = 0;
        while i < exp_cnt
            invariant
                len == f@.len(),
                0 < exp_cnt,
                i <= exp_cnt,
                pos == record_start(exp_offset as int, i as int),
                pos <= len,
                i > 0 ==> final_at == final_size_field(exp_offset as int, i as int),
                pairs_read(len as int, exp_offset as int, exp_cnt as nat) == i + pairs_read(
                    len as int,
                    pos as int,
                    (exp_cnt - i) as nat,
                ),
                size_buf@ == old(size_buf)@ + Seq::new(
                    i as nat,
                    |k: int| export_size(f@, exp_offset as int, k),
                ),
                offset_buf@ == old(offset_buf)@ + Seq::new(
                    i as nat,
                    |k: int| export_offset(f@, exp_offset as int, k),
                ),
            decreases exp_cnt - i,
        {
            if len - pos < SERIAL_OFFSET_AT + 8 {
                assert(pairs_read(len as int, pos as int, (exp_cnt - i) as nat) == 0);
                return Err(PatchError::Io);
            }
            final_at = pos + SERIAL_SIZE_AT;
            let size = read_i64_at(f, pos + SERIAL_SIZE_AT);
            let offset = read_i64_at(f, pos + SERIAL_OFFSET_AT);
            size_buf.push(size);
            offset_buf.push(offset);
            assert(export_size(f@, exp_offset as int, i as int) == size);
            assert(export_offset(f@, exp_offset as int, i as int) == offset);
            assert(Seq::new((i + 1) as nat, |k: int| export_size(f@, exp_offset as int, k))
                =~= Seq::new(i as nat, |k: int| export_size(f@, exp_offset as int, k)).push(size));
            assert(Seq::new((i + 1) as nat, |k: int| export_offset(f@, exp_offset as int, k))
                =~= Seq::new(i as nat, |k: int| export_offset(f@, exp_offset as int, k)).push(
                offset,
            ));
            if len - pos < EXPORT_RECORD_LEN {
                assert(pairs_read(
                    len as int,
                    pos + EXPORT_RECORD_LEN,
                    (exp_cnt - i - 1) as nat,
                ) == 0);
                assert(exp_offset + EXPORT_RECORD_LEN * exp_cnt > len) by (nonlinear_arith)
                    requires
                        pos == exp_offset + EXPORT_RECORD_LEN * i,
                        i < exp_cnt,
                        pos + EXPORT_RECORD_LEN > len,
                ;
                return Err(PatchError::Io);
            }
            pos = pos + EXPORT_RECORD_LEN;
            i = i + 1;
        }
        Ok(Some(final_at))
    }
}

} // verus!
