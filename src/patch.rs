//! The offset patcher: rewrites the two header fields that the payload
//! rewrite made stale.
use crate::bytes::{fits, le_i64, lemma_put_get_i64, put_i64, read_i64_at, write_i64_at};
use crate::{Logger, PatchError, PatchFixer};
use vstd::prelude::*;

verus! {

/// By how much the package grows for `count` materials: four bytes each.
pub open spec fn material_delta(count: i32) -> i64 {
    (4 * count) as i64
}

/// The header after patching: the total package size field set to the last
/// export's size plus the material delta, then the bulk-data start field
/// increased by the same delta. Both sums wrap around at 64 bits.
pub open spec fn patched_header(
    h: Seq<u8>,
    last_size: i64,
    count: i32,
    final_at: int,
    bulk_at: int,
) -> Seq<u8> {
    let h1 = put_i64(h, final_at, last_size.wrapping_add(material_delta(count)));
    put_i64(h1, bulk_at, le_i64(h1, bulk_at).wrapping_add(material_delta(count)))
}

impl<LogProvider: Logger> PatchFixer<LogProvider> {
    /// Rewrites the total package size field at `final_size_offset` and the
    /// bulk-data start field at `bulk_offset` of `header` for
    /// `material_count` materials. No other byte changes.
    ///
    /// Call it once per rewritten payload: a second call adds the delta to the
    /// bulk-data start field again.
    pub fn clean_uasset(
        &mut self,
        header: &mut Vec<u8>,
        sizes: &[i64],
        material_count: i32,
        final_size_offset: usize,
        bulk_offset: usize,
    ) -> (r: Result<(), PatchError>)
        requires
            sizes@.len() > 0,
        ensures
            fits(old(header)@, final_size_offset as int, 8) && fits(
                old(header)@,
                bulk_offset as int,
                8,
            ) ==> r == Ok::<(), PatchError>(()) && final(header)@ == patched_header(
                old(header)@,
                sizes@.last(),
                material_count,
                final_size_offset as int,
                bulk_offset as int,
            ),
            !(fits(old(header)@, final_size_offset as int, 8) && fits(
                old(header)@,
                bulk_offset as int,
                8,
            )) ==> r == Err::<(), PatchError>(PatchError::Io) && final(header)@ == old(header)@,
    {
        let len = header.len();
        if len < 8 || final_size_offset > len - 8 || bulk_offset > len - 8 {
            return Err(PatchError::Io);
        }
        let delta: i64 = 4 * (material_count as i64);
        let final_size = sizes[sizes.len() - 1].wrapping_add(delta);
        proof {
            lemma_put_get_i64(old(header)@, final_size_offset as int, final_size);
        }
        write_i64_at(header, final_size_offset, final_size);
        let bulk_start = read_i64_at(header.as_slice(), bulk_offset);
        write_i64_at(header, bulk_offset, bulk_start.wrapping_add(delta));
        Ok(())
    }
}

/// After patching, the total package size field holds the last export's
/// size plus four bytes per material, the bulk-data start field holds its old
/// value plus four bytes per material, and every other byte is unchanged
/// (the two fields being apart from each other).
pub proof fn lemma_patch_fields(h: Seq<u8>, last_size: i64, count: i32, final_at: int, bulk_at: int)
    requires
        fits(h, final_at, 8),
        fits(h, bulk_at, 8),
        final_at + 8 <= bulk_at || bulk_at + 8 <= final_at,
    ensures
        patched_header(h, last_size, count, final_at, bulk_at).len() == h.len(),
        le_i64(patched_header(h, last_size, count, final_at, bulk_at), final_at)
            == last_size.wrapping_add(material_delta(count)),
        le_i64(patched_header(h, last_size, count, final_at, bulk_at), bulk_at) == le_i64(
            h,
            bulk_at,
        ).wrapping_add(material_delta(count)),
        forall|i: int|
            0 <= i < h.len() && !(final_at <= i < final_at + 8) && !(bulk_at <= i < bulk_at + 8)
                ==> #[trigger] patched_header(h, last_size, count, final_at, bulk_at)[i] == h[i],
{
    let v1 = last_size.wrapping_add(material_delta(count));
    let h1 = put_i64(h, final_at, v1);
    lemma_put_get_i64(h, final_at, v1);
    assert(le_i64(h1, bulk_at) == le_i64(h, bulk_at)) by {
        assert(h1[bulk_at] == h[bulk_at]);
        assert(h1[bulk_at + 1] == h[bulk_at + 1]);
        assert(h1[bulk_at + 2] == h[bulk_at + 2]);
        assert(h1[bulk_at + 3] == h[bulk_at + 3]);
        assert(h1[bulk_at + 4] == h[bulk_at + 4]);
        assert(h1[bulk_at + 5] == h[bulk_at + 5]);
        assert(h1[bulk_at + 6] == h[bulk_at + 6]);
        assert(h1[bulk_at + 7] == h[bulk_at + 7]);
    }
    let v2 = le_i64(h1, bulk_at).wrapping_add(material_delta(count));
    let h2 = put_i64(h1, bulk_at, v2);
    lemma_put_get_i64(h1, bulk_at, v2);
    assert(le_i64(h2, final_at) == le_i64(h1, final_at)) by {
        assert(h2[final_at] == h1[final_at]);
        assert(h2[final_at + 1] == h1[final_at + 1]);
        assert(h2[final_at + 2] == h1[final_at + 2]);
        assert(h2[final_at + 3] == h1[final_at + 3]);
        assert(h2[final_at + 4] == h1[final_at + 4]);
        assert(h2[final_at + 5] == h1[final_at + 5]);
        assert(h2[final_at + 6] == h1[final_at + 6]);
        assert(h2[final_at + 7] == h1[final_at + 7]);
    }
}

/// Patching twice with the same count is not idempotent: the total package
/// size field is set to the same value again, but the bulk-data start field
/// receives the delta a second time.
pub proof fn lemma_patch_twice(h: Seq<u8>, last_size: i64, count: i32, final_at: int, bulk_at: int)
    requires
        fits(h, final_at, 8),
        fits(h, bulk_at, 8),
        final_at + 8 <= bulk_at || bulk_at + 8 <= final_at,
    ensures
        le_i64(
            patched_header(
                patched_header(h, last_size, count, final_at, bulk_at),
                last_size,
                count,
                final_at,
                bulk_at,
            ),
            final_at,
        ) == last_size.wrapping_add(material_delta(count)),
        le_i64(
            patched_header(
                patched_header(h, last_size, count, final_at, bulk_at),
                last_size,
                count,
                final_at,
                bulk_at,
            ),
            bulk_at,
        ) == le_i64(h, bulk_at).wrapping_add(material_delta(count)).wrapping_add(
            material_delta(count),
        ),
{
    lemma_patch_fields(h, last_size, count, final_at, bulk_at);
    let once = patched_header(h, last_size, count, final_at, bulk_at);
    lemma_patch_fields(once, last_size, count, final_at, bulk_at);
}

} // verus!
