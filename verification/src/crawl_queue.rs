//! The crawl queue: a consumer fetches titles that are still to be processed,
//! works on each outside the store, and reports each one done.
//!
//! A fetch reserves nothing. Two consumers that fetch before either reports
//! may be handed the same titles, so a title is delivered at least once, not
//! exactly once.

use vstd::prelude::*;
use crate::db::{
    batch_len, get_links_to_process, mark_link_as_processed, has_link, marked_links,
    pending_links, Database, Tables,
};
use crate::error::StorageError;
use crate::models::LinkProcessed;

verus! {

/// The titles of `links`, in their order.
pub open spec fn titles_of(links: Seq<LinkProcessed>) -> Seq<String> {
    Seq::new(links.len(), |i: int| links[i].title)
}

/// Up to `limit` titles that are still to be processed, in the order of the
/// table. The store stays as it is. A negative limit is refused with
/// `Validation`.
pub fn fetch_titles(conn: &Database, limit: i32) -> (result: Result<Vec<String>, StorageError>)
    requires
        conn.wf(),
    ensures
        limit < 0 ==> result == Err::<Vec<String>, StorageError>(StorageError::Validation),
        limit >= 0 ==> result is Ok && result->Ok_0@ == titles_of(
            pending_links(conn@.links_processed).take(
                batch_len(conn@.links_processed, limit as int),
            ),
        ) && result->Ok_0@.len() <= limit,
{
    match get_links_to_process(conn, limit) {
        Err(e) => Err(e),
        Ok(rows) => {
            let mut titles: Vec<String> = Vec::new();
            let mut i: usize = 0;
            while i < rows.len()
                invariant
                    i <= rows.len(),
                    titles@ == titles_of(rows@.take(i as int)),
                decreases rows.len() - i,
            {
                titles.push(rows[i].title.clone());
                assert(titles@ =~= titles_of(rows@.take(i + 1)));
                i += 1;
            }
            assert(rows@.take(i as int) =~= rows@);
            Ok(titles)
        },
    }
}

/// Reports that the link titled `title` has been processed. The result is
/// the number of links of that title: 1, or 0 where there is none.
pub fn report_done(conn: &mut Database, title: &str) -> (result: Result<usize, StorageError>)
    requires
        old(conn).wf(),
    ensures
        final(conn).wf(),
        result == Ok::<usize, StorageError>(
            if has_link(old(conn)@.links_processed, title@) {
                1usize
            } else {
                0usize
            },
        ),
        final(conn)@ == (Tables {
            links_processed: marked_links(old(conn)@.links_processed, title@),
            ..old(conn)@
        }),
{
    mark_link_as_processed(conn, title)
}

} // verus!
