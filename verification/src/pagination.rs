//! Pages: the one page size, which part of a listing a page holds, and how
//! many pages a listing is said to have.

use vstd::math::min;
use vstd::prelude::*;

verus! {

/// The number of stories on a full page. Listing and page counting share it.
pub const PAGE_SIZE: i64 = 32;

/// The part of `listing` that page number `page` holds: `page_size` items
/// from item `page * page_size` on, or as many as are left.
pub open spec fn page_of<T>(listing: Seq<T>, page: int, page_size: int) -> Seq<T> {
    listing.subrange(
        min(page * page_size, listing.len() as int),
        min(page * page_size + page_size, listing.len() as int),
    )
}

/// The number of pages reported for `total` items: none for an empty
/// listing, otherwise one more than the number of full pages. A listing that
/// fills its last page exactly is therefore reported with one page more than
/// it has items for.
pub open spec fn page_count(total: int, page_size: int) -> int {
    if total == 0 {
        0
    } else {
        total / page_size + 1
    }
}

/// The positions in a listing of `len` items where page `page` begins and
/// ends.
pub fn page_bounds(page: i64, page_size: i64, len: usize) -> (bounds: (usize, usize))
    requires
        page >= 0,
        page_size > 0,
    ensures
        bounds.0 == min(page * page_size, len as int),
        bounds.1 == min(page * page_size + page_size, len as int),
        bounds.0 <= bounds.1 <= len,
{
    assert(0 <= page * page_size <= 0x7fff_ffff_ffff_ffff * 0x7fff_ffff_ffff_ffff) by (nonlinear_arith)
        requires
            0 <= page <= 0x7fff_ffff_ffff_ffff,
            0 < page_size <= 0x7fff_ffff_ffff_ffff,
    ;
    let offset: u128 = (page as u128) * (page_size as u128);
    let start = clamp_to(offset, len);
    let room = len - start;
    let end = start + clamp_to(page_size as u128, room);
    (start, end)
}

/// The smaller of a number and a length.
fn clamp_to(value: u128, len: usize) -> (clamped: usize)
    ensures
        clamped == min(value as int, len as int),
{
    if value >= len as u128 {
        len
    } else {
        value as usize
    }
}

/// Computes the number of pages reported for `total` items.
pub fn count_pages(total: i64, page_size: i64) -> (pages: i64)
    requires
        total >= 0,
        page_size > 0,
        total / page_size < i64::MAX,
    ensures
        pages == page_count(total as int, page_size as int),
{
    if total == 0 {
        0
    } else {
        total / page_size + 1
    }
}

/// The page count, case by case: an empty listing has no pages; `k` full
/// pages are reported as `k + 1`; anything else as the number of full pages
/// plus one.
pub proof fn lemma_page_count_cases(total: int, page_size: int, k: int)
    requires
        total >= 0,
        page_size > 0,
    ensures
        total == 0 ==> page_count(total, page_size) == 0,
        k > 0 && total == page_size * k ==> page_count(total, page_size) == k + 1,
        total > 0 ==> page_count(total, page_size) == total / page_size + 1,
        total > 0 ==> page_count(total, page_size) * page_size > total,
{
    if k > 0 && total == page_size * k {
        assert(total > 0) by (nonlinear_arith)
            requires
                k > 0,
                page_size > 0,
                total == page_size * k,
        ;
        assert(total / page_size == k) by (nonlinear_arith)
            requires
                page_size > 0,
                total == page_size * k,
        ;
    }
    if total > 0 {
        assert((total / page_size + 1) * page_size > total) by (nonlinear_arith)
            requires
                total > 0,
                page_size > 0,
        ;
    }
}

} // verus!
