//! The payload scanner and rewriter: finds the material count by its sentinel,
//! then copies the payload with the padding after each material record dropped.
use crate::bytes::{append_range, fits, le_i32, read_i32_at};
use crate::{Logger, PatchError, PatchFixer};
use vstd::prelude::*;
use vstd::string::StrSliceExecFns;

verus! {

/// Bytes the scan may cover before its budget is first grown.
pub const INITIAL_BUDGET: u64 = 500000;

/// The least amount by which the budget grows.
pub const BUDGET_STEP: u64 = 0x50000;

/// A material count is accepted when it lies strictly between 0 and this.
pub const MAX_MATERIALS: i32 = 255;

/// Length of one material record.
pub const RECORD_LEN: usize = 40;

/// Length of the zero padding that follows each material record.
pub const PADDING_LEN: usize = 4;

/// What the scanner makes of the three bytes at one position.
#[derive(Debug, Clone, Copy, PartialEq, Eq, Structural)]
pub enum Candidate {
    /// No sentinel: move on by one byte.
    Slide,
    /// A sentinel followed by a fourth `0xFF`: move on by four bytes.
    Run,
    /// A sentinel whose count is out of range: move on by three bytes.
    Rejected,
    /// A sentinel whose count is accepted.
    Found(i32),
}

/// The three bytes at `p` are all `0xFF`.
pub open spec fn sentinel_at(r: Seq<u8>, p: int) -> bool {
    r[p] == 0xFFu8 && r[p + 1] == 0xFFu8 && r[p + 2] == 0xFFu8
}

/// How the scanner classifies position `p`. The count candidate is the signed
/// 32-bit integer that ends one byte before the sentinel.
pub open spec fn candidate_at(r: Seq<u8>, p: int) -> Result<Candidate, PatchError>
    recommends
        fits(r, p, 3),
{
    if !sentinel_at(r, p) {
        Ok(Candidate::Slide)
    } else if !fits(r, p + 3, 1) {
        Err(PatchError::Io)
    } else if r[p + 3] == 0xFFu8 {
        Ok(Candidate::Run)
    } else if p < 5 {
        Err(PatchError::Io)
    } else {
        let count = le_i32(r, p - 5);
        if 0 < count < MAX_MATERIALS {
            Ok(Candidate::Found(count))
        } else {
            Ok(Candidate::Rejected)
        }
    }
}

/// The budget that follows `budget` when it has run out.
pub open spec fn grown_budget(budget: int, remaining: int) -> int {
    if budget + BUDGET_STEP >= remaining {
        budget + BUDGET_STEP
    } else {
        remaining
    }
}

/// The scan that starts at `start`, standing at `p` with the given budget:
/// `Ok(Some((end, count)))` when it finds an accepted count, `end` being the
/// position just after the count field; `Ok(None)` when it finds none.
pub open spec fn scan_from(r: Seq<u8>, start: int, remaining: int, p: int, budget: int) -> Result<
    Option<(usize, i32)>,
    PatchError,
>
    decreases r.len() - p, if p - start > budget {
        p - start - budget
    } else {
        0
    },
{
    if !(start <= p && p + 3 <= r.len()) {
        Ok(None)
    } else if p - start > budget {
        if budget == remaining {
            Ok(None)
        } else {
            scan_from(r, start, remaining, p, grown_budget(budget, remaining))
        }
    } else {
        match candidate_at(r, p) {
            Err(e) => Err(e),
            Ok(Candidate::Slide) => scan_from(r, start, remaining, p + 1, budget),
            Ok(Candidate::Run) => scan_from(r, start, remaining, p + 4, budget),
            Ok(Candidate::Rejected) => scan_from(r, start, remaining, p + 3, budget),
            Ok(Candidate::Found(count)) => Ok(Some(((p - 1) as usize, count))),
        }
    }
}

/// Classifies position `p` of the payload.
pub fn classify(r: &[u8], p: usize) -> (c: Result<Candidate, PatchError>)
    requires
        fits(r@, p as int, 3),
    ensures
        c == candidate_at(r@, p as int),
{
    if !(r[p] == 0xFF && r[p + 1] == 0xFF && r[p + 2] == 0xFF) {
        Ok(Candidate::Slide)
    } else if p + 3 >= r.len() {
        Err(PatchError::Io)
    } else if r[p + 3] == 0xFF {
        Ok(Candidate::Run)
    } else if p < 5 {
        Err(PatchError::Io)
    } else {
        let count = read_i32_at(r, p - 5);
        if 0 < count && count < MAX_MATERIALS {
            Ok(Candidate::Found(count))
        } else {
            Ok(Candidate::Rejected)
        }
    }
}

/// Scans the payload from `start` for an accepted material count. `remaining`
/// is the size the budget may grow to before a miss ends the scan.
pub fn scan_materials(r: &[u8], start: usize, remaining: u64) -> (res: Result<
    Option<(usize, i32)>,
    PatchError,
>)
    ensures
        res == scan_from(r@, start as int, remaining as int, start as int, INITIAL_BUDGET as int),
        res matches Ok(Some((e, c))) ==> e < r@.len() && 0 < c < MAX_MATERIALS,
{
    let len = r.len();
    let mut p: usize = start;
    let mut budget: u128 = INITIAL_BUDGET as u128;
    loop
        invariant
            len == r@.len(),
            start <= p,
            budget <= 0x2_0000_0000_0000_0000,
            scan_from(r@, start as int, remaining as int, p as int, budget as int) == scan_from(
                r@,
                start as int,
                remaining as int,
                start as int,
                INITIAL_BUDGET as int,
            ),
        decreases len - p, if p - start > budget {
            p - start - budget
        } else {
            0
        },
    {
        if len < 3 || p > len - 3 {
            return Ok(None);
        }
        if (p - start) as u128 > budget {
            if budget == remaining as u128 {
                return Ok(None);
            }
            budget =
            if budget + (BUDGET_STEP as u128) >= remaining as u128 {
                budget + (BUDGET_STEP as u128)
            } else {
                remaining as u128
            };
            continue;
        }
        match classify(r, p) {
            Err(e) => {
                return Err(e);
            },
            Ok(Candidate::Slide) => {
                p = p + 1;
            },
            Ok(Candidate::Run) => {
                p = p + 4;
            },
            Ok(Candidate::Rejected) => {
                p = p + 3;
            },
            Ok(Candidate::Found(count)) => {
                return Ok(Some((p - 1, count)));
            },
        }
    }
}

/// `hay` holds `pat` as a contiguous run.
pub open spec fn contains(hay: Seq<char>, pat: Seq<char>) -> bool {
    exists|i: int| 0 <= i <= hay.len() - pat.len() && #[trigger] hay.subrange(i, i + pat.len()) == pat
}

/// An asset whose name marks it as one that holds no material array: a
/// skeleton, physics, animation, rig or blueprint asset, or one whose name
/// lacks the skeletal-mesh prefix.
pub open spec fn skippable_name(name: Seq<char>) -> bool {
    contains(name, seq!['S', 'k', 'e', 'l', 'e', 't', 'o', 'n']) || contains(
        name,
        seq!['P', 'h', 'y', 's', 'i', 'c', 's'],
    ) || contains(name, seq!['A', 'n', 'i', 'm']) || contains(name, seq!['R', 'i', 'g'])
        || contains(name, seq!['B', 'P']) || !contains(name, seq!['S', 'K', '_'])
}

/// Whether `pat` occurs in `hay`.
pub fn contains_chars(hay: &Vec<char>, pat: &Vec<char>) -> (r: bool)
    ensures
        r == contains(hay@, pat@),
{
    let n = hay.len();
    let m = pat.len();
    if m > n {
        return false;
    }
    let mut i: usize = 0;
    while i <= n - m
        invariant
            n == hay@.len(),
            m == pat@.len(),
            m <= n,
            i <= n - m + 1,
            forall|k: int| 0 <= k < i ==> #[trigger] hay@.subrange(k, k + m) != pat@,
        decreases n - m + 1 - i,
    {
        let mut j: usize = 0;
        while j < m && hay[i + j] == pat[j]
            invariant
                n == hay@.len(),
                m == pat@.len(),
                i + m <= n,
                j <= m,
                forall|t: int| 0 <= t < j ==> hay@[i + t] == pat@[t],
            decreases m - j,
        {
            j = j + 1;
        }
        if j == m {
            assert(hay@.subrange(i as int, i + m) =~= pat@);
            return true;
        }
        assert(hay@.subrange(i as int, i + m)[j as int] != pat@[j as int]);
        i = i + 1;
    }
    proof {
        assert forall|k: int| 0 <= k <= hay@.len() - pat@.len() implies #[trigger] hay@.subrange(
            k,
            k + pat@.len(),
        ) != pat@ by {
            assert(k < i);
        }
    }
    false
}

/// The characters of `s`.
fn chars_of(s: &str) -> (r: Vec<char>)
    ensures
        r@ == s@,
{
    let n = s.unicode_len();
    let mut r: Vec<char> = Vec::new();
    let mut i: usize = 0;
    while i < n
        invariant
            n == s@.len(),
            i <= n,
            r@ == s@.subrange(0, i as int),
        decreases n - i,
    {
        r.push(s.get_char(i));
        assert(s@.subrange(0, i + 1) == s@.subrange(0, i as int).push(s@[i as int]));
        i = i + 1;
    }
    assert(s@.subrange(0, n as int) =~= s@);
    r
}

/// Whether an asset with this file name may be skipped when no material count
/// is found in it.
pub fn is_skippable(file_name: &str) -> (r: bool)
    ensures
        r == skippable_name(file_name@),
{
    let name = chars_of(file_name);
    contains_chars(&name, &vec!['S', 'k', 'e', 'l', 'e', 't', 'o', 'n']) || contains_chars(
        &name,
        &vec!['P', 'h', 'y', 's', 'i', 'c', 's'],
    ) || contains_chars(&name, &vec!['A', 'n', 'i', 'm']) || contains_chars(
        &name,
        &vec!['R', 'i', 'g'],
    ) || contains_chars(&name, &vec!['B', 'P']) || !contains_chars(&name, &vec!['S', 'K', '_'])
}

/// The four bytes at `p` are all zero.
pub open spec fn zero_padding(r: Seq<u8>, p: int) -> bool {
    r[p] == 0 && r[p + 1] == 0 && r[p + 2] == 0 && r[p + 3] == 0
}

/// The 40-byte bodies of the first `k` material records from `q`, one after
/// the other.
pub open spec fn bodies(r: Seq<u8>, q: int, k: nat) -> Seq<u8>
    decreases k,
{
    if k == 0 {
        Seq::empty()
    } else {
        r.subrange(q, q + RECORD_LEN) + bodies(r, q + RECORD_LEN + PADDING_LEN, (k - 1) as nat)
    }
}

/// The `n` material records that start at `q`: the bytes they leave in the
/// output (each 40-byte record, without its padding), and either the position
/// after the last padding or the error that stopped the copy.
pub open spec fn records(r: Seq<u8>, q: int, n: nat) -> (Seq<u8>, Result<int, PatchError>)
    decreases n,
{
    if n == 0 {
        (Seq::empty(), Ok(q))
    } else if !fits(r, q, RECORD_LEN as int) {
        (Seq::empty(), Err(PatchError::Io))
    } else if !fits(r, q + RECORD_LEN, PADDING_LEN as int) {
        (r.subrange(q, q + RECORD_LEN), Err(PatchError::Io))
    } else if !zero_padding(r, q + RECORD_LEN) {
        (r.subrange(q, q + RECORD_LEN), Err(PatchError::PaddingMismatch))
    } else {
        let rest = records(r, q + RECORD_LEN + PADDING_LEN, (n - 1) as nat);
        (r.subrange(q, q + RECORD_LEN) + rest.0, rest.1)
    }
}

/// Copies `n` material records that start at `q` to `o`, dropping the zero
/// padding after each; returns the position after the last padding.
fn copy_records(r: &[u8], q: usize, n: i32, o: &mut Vec<u8>) -> (res: Result<usize, PatchError>)
    requires
        q <= r@.len(),
        n >= 0,
    ensures
        final(o)@ == old(o)@ + records(r@, q as int, n as nat).0,
        match records(r@, q as int, n as nat).1 {
            Ok(e) => res == Ok::<usize, PatchError>(e as usize) && q <= e <= r@.len(),
            Err(x) => res == Err::<usize, PatchError>(x),
        },
{
    let len = r.len();
    let mut p: usize = q;
    let mut k: i32 = 0;
    let ghost mut written: Seq<u8> = Seq::empty();
    while k < n
        invariant
            len == r@.len(),
            0 <= k <= n,
            q <= p <= len,
            o@ == old(o)@ + written,
            records(r@, q as int, n as nat).0 == written + records(r@, p as int, (n - k) as nat).0,
            records(r@, q as int, n as nat).1 == records(r@, p as int, (n - k) as nat).1,
        decreases n - k,
    {
        if len < RECORD_LEN || p > len - RECORD_LEN {
            assert(written + Seq::<u8>::empty() =~= written);
            return Err(PatchError::Io);
        }
        append_range(o, r, p, p + RECORD_LEN);
        let ghost rec = r@.subrange(p as int, p + RECORD_LEN);
        if len < PADDING_LEN || p + RECORD_LEN > len - PADDING_LEN {
            proof {
                written = written + rec;
            }
            assert(written + Seq::<u8>::empty() =~= written);
            return Err(PatchError::Io);
        }
        if !(r[p + 40] == 0 && r[p + 41] == 0 && r[p + 42] == 0 && r[p + 43] == 0) {
            proof {
                written = written + rec;
            }
            assert(written + Seq::<u8>::empty() =~= written);
            return Err(PatchError::PaddingMismatch);
        }
        proof {
            let rest = records(r@, p + RECORD_LEN + PADDING_LEN, (n - k - 1) as nat);
            assert(written + (rec + rest.0) =~= (written + rec) + rest.0);
            written = written + rec;
        }
        p = p + RECORD_LEN + PADDING_LEN;
        k = k + 1;
    }
    assert(written + Seq::<u8>::empty() =~= written);
    Ok(p)
}

/// How many payload bytes precede the last export's data: the last serialized
/// offset less the header's size.
pub open spec fn prefix_len(offsets: Seq<i64>, file_size: u64) -> int {
    offsets.last() - file_size
}

/// What the budget may grow to: the header's size less the scan's start, or 0.
pub open spec fn remaining_after(file_size: u64, start: int) -> int {
    if file_size >= start {
        file_size - start
    } else {
        0
    }
}

/// The rewrite of payload `r`: the bytes it writes, and the material count or
/// the error that stopped it.
///
/// The payload up to the end of the count field is kept, each material record
/// is kept without the four zero bytes after it, and the rest is kept.
pub open spec fn rewrite(r: Seq<u8>, file_size: u64, file_name: Seq<char>, offsets: Seq<i64>) -> (
    Seq<u8>,
    Result<i32, PatchError>,
) {
    let start = prefix_len(offsets, file_size);
    if start < 0 || start > r.len() {
        (Seq::empty(), Err(PatchError::Io))
    } else {
        match scan_from(r, start, remaining_after(file_size, start), start, INITIAL_BUDGET as int) {
            Err(e) => (r.subrange(0, start), Err(e)),
            Ok(None) => (
                r.subrange(0, start),
                Err(
                    if skippable_name(file_name) {
                        PatchError::Skip
                    } else {
                        PatchError::InvalidData
                    },
                ),
            ),
            Ok(Some((end, count))) => {
                if end < start {
                    // the count field lies before the scanned span
                    (r.subrange(0, start), Err(PatchError::InvalidData))
                } else {
                    let recs = records(r, end as int, count as nat);
                    match recs.1 {
                        Ok(after) => (
                            r.subrange(0, end as int) + recs.0 + r.subrange(after, r.len() as int),
                            Ok(count),
                        ),
                        Err(e) => (r.subrange(0, end as int) + recs.0, Err(e)),
                    }
                }
            },
        }
    }
}

impl<LogProvider: Logger> PatchFixer<LogProvider> {
    /// Rewrites payload `r` into `o`: copies the bytes before the last export's
    /// data, finds the material count by scanning, copies up to the count
    /// field, copies each material record without its zero padding, and copies
    /// the rest. Returns the material count.
    pub fn read_uexp(
        &self,
        r: &[u8],
        file_size: u64,
        file_name: &str,
        o: &mut Vec<u8>,
        offsets: &Vec<i64>,
    ) -> (res: Result<i32, PatchError>)
        requires
            offsets@.len() > 0,
        ensures
            final(o)@ == old(o)@ + rewrite(r@, file_size, file_name@, offsets@).0,
            res == rewrite(r@, file_size, file_name@, offsets@).1,
    {
        let len = r.len();
        let last = offsets[offsets.len() - 1];
        if last < 0 || (last as u64) < file_size || (last as u64) - file_size > len as u64 {
            assert(old(o)@ + Seq::<u8>::empty() =~= old(o)@);
            return Err(PatchError::Io);
        }
        let start = ((last as u64) - file_size) as usize;
        append_range(o, r, 0, start);
        let remaining: u64 = if file_size >= start as u64 { file_size - start as u64 } else { 0 };
        let found = scan_materials(r, start, remaining);
        match found {
            Err(e) => Err(e),
            Ok(None) => {
                if is_skippable(file_name) {
                    Err(PatchError::Skip)
                } else {
                    Err(PatchError::InvalidData)
                }
            },
            Ok(Some((end, count))) => {
                if end < start {
                    return Err(PatchError::InvalidData);
                }
                append_range(o, r, start, end);
                assert(r@.subrange(0, start as int) + r@.subrange(start as int, end as int)
                    =~= r@.subrange(0, end as int));
                assert(o@ =~= old(o)@ + r@.subrange(0, end as int));
                let copied = copy_records(r, end, count, o);
                let ghost recs = records(r@, end as int, count as nat);
                match copied {
                    Err(e) => {
                        assert(o@ =~= old(o)@ + (r@.subrange(0, end as int) + recs.0));
                        Err(e)
                    },
                    Ok(after) => {
                        append_range(o, r, after, len);
                        assert(o@ =~= old(o)@ + (r@.subrange(0, end as int) + recs.0 + r@.subrange(
                            after as int,
                            len as int,
                        )));
                        Ok(count)
                    },
                }
            },
        }
    }
}

/// Copying `n` records that all pass their padding check covers 44 bytes of
/// input and writes 40 bytes per record.
pub proof fn lemma_records_len(r: Seq<u8>, q: int, n: nat)
    requires
        records(r, q, n).1 is Ok,
    ensures
        records(r, q, n).1 == Ok::<int, PatchError>(q + 44 * n),
        records(r, q, n).0.len() == 40 * n,
        n > 0 ==> 0 <= q && q + 44 * n <= r.len(),
    decreases n,
{
    if n > 0 {
        lemma_records_len(r, q + 44, (n - 1) as nat);
    }
}

/// A successful rewrite that found `count` materials is four bytes per
/// material shorter than the payload.
pub proof fn lemma_rewrite_len(r: Seq<u8>, file_size: u64, file_name: Seq<char>, offsets: Seq<i64>)
    requires
        rewrite(r, file_size, file_name, offsets).1 is Ok,
    ensures
        rewrite(r, file_size, file_name, offsets).0.len() == r.len() - 4 * rewrite(
            r,
            file_size,
            file_name,
            offsets,
        ).1->Ok_0,
{
    let start = prefix_len(offsets, file_size);
    let found = scan_from(r, start, remaining_after(file_size, start), start, INITIAL_BUDGET as int);
    lemma_scan_found(r, start, remaining_after(file_size, start), start, INITIAL_BUDGET as int);
    let (end, count) = found->Ok_0->Some_0;
    lemma_records_len(r, end as int, count as nat);
}

/// What a scan finds lies inside the payload, with an accepted count.
pub proof fn lemma_scan_found(r: Seq<u8>, start: int, remaining: int, p: int, budget: int)
    ensures
        scan_from(r, start, remaining, p, budget) matches Ok(Some((e, c))) ==> e < r.len() && 0
            < c < MAX_MATERIALS,
    decreases r.len() - p, if p - start > budget {
        p - start - budget
    } else {
        0
    },
{
    if start <= p && p + 3 <= r.len() {
        if p - start > budget {
            if budget != remaining {
                lemma_scan_found(r, start, remaining, p, grown_budget(budget, remaining));
            }
        } else {
            match candidate_at(r, p) {
                Ok(Candidate::Slide) => lemma_scan_found(r, start, remaining, p + 1, budget),
                Ok(Candidate::Run) => lemma_scan_found(r, start, remaining, p + 4, budget),
                Ok(Candidate::Rejected) => lemma_scan_found(r, start, remaining, p + 3, budget),
                _ => {},
            }
        }
    }
}

/// Four `0xFF` bytes in a row are never taken for a count: the scan steps
/// over all four and goes on from there.
pub proof fn lemma_run_skipped(r: Seq<u8>, start: int, remaining: int, p: int, budget: int)
    requires
        start <= p,
        fits(r, p, 4),
        p - start <= budget,
        r[p] == 0xFFu8 && r[p + 1] == 0xFFu8 && r[p + 2] == 0xFFu8 && r[p + 3] == 0xFFu8,
    ensures
        candidate_at(r, p) == Ok::<Candidate, PatchError>(Candidate::Run),
        scan_from(r, start, remaining, p, budget) == scan_from(r, start, remaining, p + 4, budget),
{
}

/// A sentinel whose candidate count ends in a `0xFF` byte (as inside a longer
/// run of `0xFF`) is never accepted: such a count is negative.
pub proof fn lemma_no_match_after_ff(r: Seq<u8>, p: int)
    requires
        fits(r, p, 3),
        p >= 5,
        r[p - 2] == 0xFFu8,
    ensures
        !(candidate_at(r, p) matches Ok(Candidate::Found(_))),
{
    let b0 = r[p - 5];
    let b1 = r[p - 4];
    let b2 = r[p - 3];
    let b3 = r[p - 2];
    assert((((b0 as u32) | ((b1 as u32) << 8u32) | ((b2 as u32) << 16u32) | ((b3 as u32)
        << 24u32)) as i32) < 0) by (bit_vector)
        requires
            b3 == 0xFFu8,
    ;
}

/// The scan without a budget: it runs until it finds an accepted count, meets
/// a fault, or runs out of bytes.
pub open spec fn scan_unbounded(r: Seq<u8>, start: int, p: int) -> Result<
    Option<(usize, i32)>,
    PatchError,
>
    decreases r.len() - p,
{
    if !(start <= p && p + 3 <= r.len()) {
        Ok(None)
    } else {
        match candidate_at(r, p) {
            Err(e) => Err(e),
            Ok(Candidate::Slide) => scan_unbounded(r, start, p + 1),
            Ok(Candidate::Run) => scan_unbounded(r, start, p + 4),
            Ok(Candidate::Rejected) => scan_unbounded(r, start, p + 3),
            Ok(Candidate::Found(count)) => Ok(Some(((p - 1) as usize, count))),
        }
    }
}

/// While the size at which a miss ends the scan lies below the budget, the
/// budget keeps growing past every window: the scan finds what a scan without
/// budget finds, however far from its start that lies, and reports a miss
/// only when no accepted count lies anywhere after the start.
pub proof fn lemma_budget_grows(r: Seq<u8>, start: int, remaining: int, p: int, budget: int)
    requires
        remaining < budget,
    ensures
        scan_from(r, start, remaining, p, budget) == scan_unbounded(r, start, p),
    decreases r.len() - p, if p - start > budget {
        p - start - budget
    } else {
        0
    },
{
    if start <= p && p + 3 <= r.len() {
        if p - start > budget {
            lemma_budget_grows(r, start, remaining, p, grown_budget(budget, remaining));
        } else {
            match candidate_at(r, p) {
                Ok(Candidate::Slide) => lemma_budget_grows(r, start, remaining, p + 1, budget),
                Ok(Candidate::Run) => lemma_budget_grows(r, start, remaining, p + 4, budget),
                Ok(Candidate::Rejected) => lemma_budget_grows(r, start, remaining, p + 3, budget),
                _ => {},
            }
        }
    }
}

/// A padding check that fails stops the copy: there is a record `k` whose
/// padding is not all zero, the records before it passed, and the output
/// holds the bodies of records `0..=k` and nothing after them.
pub proof fn lemma_padding_stop(r: Seq<u8>, q: int, n: nat)
    requires
        records(r, q, n).1 == Err::<int, PatchError>(PatchError::PaddingMismatch),
    ensures
        exists|k: int|
            0 <= k < n && fits(r, q + 44 * k, 44) && !zero_padding(r, q + 44 * k + 40)
                && records(r, q, n).0 == #[trigger] bodies(r, q, (k + 1) as nat),
    decreases n,
{
    if !zero_padding(r, q + 40) {
        assert(bodies(r, q + 44, 0) == Seq::<u8>::empty());
        assert(bodies(r, q, 1) =~= r.subrange(q, q + 40));
        assert(fits(r, q + 44 * 0, 44) && !zero_padding(r, q + 44 * 0 + 40));
        assert(records(r, q, n).0 == bodies(r, q, (0 + 1) as nat));
    } else {
        lemma_padding_stop(r, q + 44, (n - 1) as nat);
        let k = choose|k: int|
            0 <= k < n - 1 && fits(r, q + 44 + 44 * k, 44) && !zero_padding(r, q + 44 + 44 * k + 40)
                && records(r, q + 44, (n - 1) as nat).0 == #[trigger] bodies(
                r,
                q + 44,
                (k + 1) as nat,
            );
        assert(bodies(r, q, (k + 2) as nat) == r.subrange(q, q + 40) + bodies(
            r,
            q + 44,
            (k + 1) as nat,
        ));
        assert(q + 44 * (k + 1) == q + 44 + 44 * k);
        assert(bodies(r, q, ((k + 1) + 1) as nat) == records(r, q, n).0);
    }
}

/// A lone pattern is found: when every position from `p` up to `t` holds no
/// sentinel, `t` holds a sentinel with an accepted count `c`, and `t` lies
/// within the budget, the scan reports `c` with its field ending at `t - 1`.
pub proof fn lemma_single_match(
    r: Seq<u8>,
    start: int,
    remaining: int,
    p: int,
    budget: int,
    t: int,
    c: i32,
)
    requires
        start <= p <= t,
        t - start <= budget,
        t + 3 <= r.len(),
        forall|i: int| p <= i < t ==> #[trigger] candidate_at(r, i) == Ok::<Candidate, PatchError>(
            Candidate::Slide,
        ),
        candidate_at(r, t) == Ok::<Candidate, PatchError>(Candidate::Found(c)),
    ensures
        scan_from(r, start, remaining, p, budget) == Ok::<Option<(usize, i32)>, PatchError>(
            Some(((t - 1) as usize, c)),
        ),
    decreases t - p,
{
    if p < t {
        assert(candidate_at(r, p) == Ok::<Candidate, PatchError>(Candidate::Slide));
        lemma_single_match(r, start, remaining, p + 1, budget, t, c);
    }
}

/// With no accepted count and no fault at any position from `p` on, the scan
/// reports a miss, whatever its budget.
pub proof fn lemma_no_match(r: Seq<u8>, start: int, remaining: int, p: int, budget: int)
    requires
        forall|i: int|
            start <= i && i + 3 <= r.len() ==> #[trigger] candidate_at(r, i) is Ok && !(
            candidate_at(r, i) matches Ok(Candidate::Found(_))),
    ensures
        scan_from(r, start, remaining, p, budget) == Ok::<Option<(usize, i32)>, PatchError>(None),
    decreases r.len() - p, if p - start > budget {
        p - start - budget
    } else {
        0
    },
{
    if start <= p && p + 3 <= r.len() {
        if p - start > budget {
            if budget != remaining {
                lemma_no_match(r, start, remaining, p, grown_budget(budget, remaining));
            }
        } else {
            assert(candidate_at(r, p) is Ok);
            match candidate_at(r, p) {
                Ok(Candidate::Slide) => lemma_no_match(r, start, remaining, p + 1, budget),
                Ok(Candidate::Run) => lemma_no_match(r, start, remaining, p + 4, budget),
                Ok(Candidate::Rejected) => lemma_no_match(r, start, remaining, p + 3, budget),
                _ => {},
            }
        }
    }
}

/// A run of seven `0xFF` bytes gives no match: the scan steps over the first
/// four, rejects the sentinel formed by the last three, and goes on after the
/// run.
pub proof fn lemma_run_of_seven(r: Seq<u8>, start: int, remaining: int, p: int, budget: int)
    requires
        start <= p,
        p >= 1,
        p + 8 <= r.len(),
        p + 4 - start <= budget,
        forall|i: int| p <= i < p + 7 ==> r[i] == 0xFFu8,
        r[p + 7] != 0xFFu8,
    ensures
        candidate_at(r, p) == Ok::<Candidate, PatchError>(Candidate::Run),
        candidate_at(r, p + 4) == Ok::<Candidate, PatchError>(Candidate::Rejected),
        scan_from(r, start, remaining, p, budget) == scan_from(r, start, remaining, p + 7, budget),
{
    assert(r[p] == 0xFFu8 && r[p + 1] == 0xFFu8 && r[p + 2] == 0xFFu8 && r[p + 3] == 0xFFu8);
    assert(r[p + 4] == 0xFFu8 && r[p + 5] == 0xFFu8 && r[p + 6] == 0xFFu8);
    lemma_run_skipped(r, start, remaining, p, budget);
    lemma_no_match_after_ff(r, p + 4);
}

/// The rewrite reports the count of a lone pattern: with only sentinel-free
/// positions between the scan's start and `t`, an accepted count `c` at `t`
/// within the first budget, and `c` records each followed by zero padding,
/// the rewrite succeeds with `c`.
pub proof fn lemma_rewrite_finds(
    r: Seq<u8>,
    file_size: u64,
    file_name: Seq<char>,
    offsets: Seq<i64>,
    t: int,
    c: i32,
)
    requires
        0 <= prefix_len(offsets, file_size) < t,
        t - prefix_len(offsets, file_size) <= INITIAL_BUDGET,
        t + 3 <= r.len(),
        forall|i: int|
            prefix_len(offsets, file_size) <= i < t ==> #[trigger] candidate_at(r, i) == Ok::<
                Candidate,
                PatchError,
            >(Candidate::Slide),
        candidate_at(r, t) == Ok::<Candidate, PatchError>(Candidate::Found(c)),
        records(r, t - 1, c as nat).1 is Ok,
        r.len() <= usize::MAX,
    ensures
        rewrite(r, file_size, file_name, offsets).1 == Ok::<i32, PatchError>(c),
{
    let start = prefix_len(offsets, file_size);
    lemma_single_match(
        r,
        start,
        remaining_after(file_size, start),
        start,
        INITIAL_BUDGET as int,
        t,
        c,
    );
    assert(((t - 1) as usize) as int == t - 1);
}

/// The rewrite reports a miss when no position after the scan's start holds
/// an accepted count or a fault: `Skip` for an asset whose name marks it as
/// skippable, `InvalidData` otherwise, with only the bytes before the start
/// written.
pub proof fn lemma_rewrite_misses(
    r: Seq<u8>,
    file_size: u64,
    file_name: Seq<char>,
    offsets: Seq<i64>,
)
    requires
        0 <= prefix_len(offsets, file_size) <= r.len(),
        forall|i: int|
            prefix_len(offsets, file_size) <= i && i + 3 <= r.len() ==> #[trigger] candidate_at(
                r,
                i,
            ) is Ok && !(candidate_at(r, i) matches Ok(Candidate::Found(_))),
    ensures
        rewrite(r, file_size, file_name, offsets) == (
            r.subrange(0, prefix_len(offsets, file_size)),
            Err::<i32, PatchError>(
                if skippable_name(file_name) {
                    PatchError::Skip
                } else {
                    PatchError::InvalidData
                },
            ),
        ),
{
    let start = prefix_len(offsets, file_size);
    lemma_no_match(r, start, remaining_after(file_size, start), start, INITIAL_BUDGET as int);
}

} // verus!
