//! Fixed-size offset pagination.

use vstd::prelude::*;
use crate::error::StorageError;

verus! {

/// Number of rows on one page.
pub const PAGE_SIZE: i64 = 25;

/// Index of the first row of page `page_number`.
pub open spec fn spec_page_offset(page_number: int) -> int {
    page_number * 25
}

/// Where page `page_number` starts in a table of `len` rows.
pub open spec fn page_start(len: int, page_number: int) -> int {
    if spec_page_offset(page_number) < len {
        spec_page_offset(page_number)
    } else {
        len
    }
}

/// Where page `page_number` ends in a table of `len` rows.
pub open spec fn page_end(len: int, page_number: int) -> int {
    if spec_page_offset(page_number) + 25 < len {
        spec_page_offset(page_number) + 25
    } else {
        len
    }
}

/// The rows of page `page_number`: at most 25 of them, starting at row
/// `25 * page_number`, in the order of `rows`. A page past the end is empty.
pub open spec fn page_of<T>(rows: Seq<T>, page_number: int) -> Seq<T>
    recommends
        page_number >= 0,
{
    rows.subrange(page_start(rows.len() as int, page_number), page_end(rows.len() as int, page_number))
}

/// The offset that a page number stands for. Negative page numbers are
/// rejected, and so are those whose offset no `i64` can hold.
pub fn page_offset(page_number: i64) -> (result: Result<i64, StorageError>)
    ensures
        0 <= page_number && spec_page_offset(page_number as int) <= i64::MAX ==> result == Ok::<
            i64,
            StorageError,
        >(spec_page_offset(page_number as int) as i64),
        page_number < 0 || spec_page_offset(page_number as int) > i64::MAX ==> result == Err::<
            i64,
            StorageError,
        >(StorageError::Validation),
{
    if page_number < 0 {
        return Err(StorageError::Validation);
    }
    match page_number.checked_mul(PAGE_SIZE) {
        Some(offset) => Ok(offset),
        None => Err(StorageError::Validation),
    }
}

/// The index range that page `page_number` covers in a table of `len` rows.
pub fn page_bounds(len: usize, page_number: i64) -> (bounds: (usize, usize))
    requires
        page_number >= 0,
    ensures
        bounds.0 == page_start(len as int, page_number as int),
        bounds.1 == page_end(len as int, page_number as int),
        bounds.0 <= bounds.1 <= len,
        bounds.1 - bounds.0 <= 25,
{
    let pages: u64 = (len as u64) / 25;
    if (page_number as u64) > pages {
        return (len, len);
    }
    let start: usize = ((page_number as u64) * 25) as usize;
    if len - start > 25 {
        (start, start + 25)
    } else {
        (start, len)
    }
}

} // verus!
