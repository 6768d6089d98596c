//! What holds of the operations across calls, proved from their contracts.

use vstd::prelude::*;
use crate::db::{
    accepted_rows, ascending, has_category, has_link, has_page, marked_links, page_by_id,
    pending_links, well_formed, Tables,
};
use crate::dispatcher::{first_alive_from, next_worker, slot, Pending};
use crate::error::StorageError;
use crate::models::{CategoryToPage, Conspiracy, LinkProcessed};
use crate::names::{lemma_name_order, name_before};
use crate::operation::{effect, Operation, TypedValue};
use crate::paging::{page_of, spec_page_offset};

verus! {

/// A lookup that directly follows a successful insert of a page, by that
/// page's id, hands back the page exactly as it was inserted, and leaves the
/// tables as the insert left them.
pub proof fn lemma_insert_then_lookup(
    before: Tables,
    row: Conspiracy,
    inserted: Result<TypedValue, StorageError>,
    between: Tables,
    id: String,
    found: Result<TypedValue, StorageError>,
    after: Tables,
)
    requires
        well_formed(before),
        effect(Operation::InsertConspiracy { conspiracy: row }, before, between, inserted),
        inserted is Ok,
        id@ == row.page_id@,
        effect(Operation::GetConspiracyById { page_id: id }, between, after, found),
    ensures
        found == Ok::<TypedValue, StorageError>(TypedValue::Conspiracy(row)),
        after == between,
{
    let pages = between.conspiracies;
    let last = before.conspiracies.len() as int;
    assert(pages[last].page_id@ == id@);
    let k = choose|k: int| 0 <= k < pages.len() && #[trigger] pages[k].page_id@ == id@;
    if k < last {
        assert(before.conspiracies[k].page_id@ == id@);
    }
}

/// Marking a link twice is the same as marking it once: the second call
/// succeeds with the same row count, changes nothing, and every link of that
/// title is processed after either call.
pub proof fn lemma_mark_is_idempotent(
    before: Tables,
    title: String,
    first: Result<TypedValue, StorageError>,
    between: Tables,
    second: Result<TypedValue, StorageError>,
    after: Tables,
)
    requires
        effect(Operation::MarkLinkProcessed { title }, before, between, first),
        effect(Operation::MarkLinkProcessed { title }, between, after, second),
    ensures
        first is Ok,
        second == first,
        after == between,
        forall|i: int|
            0 <= i < after.links_processed.len() && (#[trigger] after.links_processed[i]).title@
                == title@ ==> after.links_processed[i].processed,
{
    let links = before.links_processed;
    let once = marked_links(links, title@);
    assert(marked_links(once, title@) =~= once);
    if has_link(links, title@) {
        let k = choose|k: int| 0 <= k < links.len() && #[trigger] links[k].title@ == title@;
        assert(once[k].title@ == title@);
    }
    if has_link(once, title@) {
        let k = choose|k: int| 0 <= k < once.len() && #[trigger] once[k].title@ == title@;
        assert(links[k].title@ == title@);
    }
}

/// Marking a title leaves the number of links, every title and every link of
/// another title as they were, whatever characters the title holds.
pub proof fn lemma_mark_touches_one_title(links: Seq<LinkProcessed>, title: Seq<char>)
    ensures
        marked_links(links, title).len() == links.len(),
        forall|i: int|
            0 <= i < links.len() ==> (#[trigger] marked_links(links, title)[i]).title
                == links[i].title,
        forall|i: int|
            0 <= i < links.len() && links[i].title@ != title ==> #[trigger] marked_links(
                links,
                title,
            )[i] == links[i],
        forall|i: int|
            0 <= i < links.len() && links[i].title@ == title ==> (#[trigger] marked_links(
                links,
                title,
            )[i]).processed,
{
}

/// No link that is handed out for processing is marked as processed, and each
/// one is a row of the table.
pub proof fn lemma_pending_are_unprocessed(links: Seq<LinkProcessed>)
    ensures
        pending_links(links).len() <= links.len(),
        forall|i: int|
            0 <= i < pending_links(links).len() ==> !(#[trigger] pending_links(links)[i]).processed
                && links.contains(pending_links(links)[i]),
    decreases links.len(),
{
    if links.len() > 0 {
        let earlier = links.drop_last();
        lemma_pending_are_unprocessed(earlier);
        assert forall|i: int| 0 <= i < pending_links(links).len() implies !(
        #[trigger] pending_links(links)[i]).processed && links.contains(pending_links(links)[i]) by {
            if i < pending_links(earlier).len() {
                let row = pending_links(earlier)[i];
                assert(earlier.contains(row));
                let k = choose|k: int| 0 <= k < earlier.len() && earlier[k] == row;
                assert(links[k] == row);
            } else {
                assert(links[links.len() - 1] == links.last());
            }
        }
    }
}

/// A fetch of links to process never hands out a processed link, and never
/// more links than the limit.
pub proof fn lemma_fetch_gives_unprocessed(
    before: Tables,
    limit: i32,
    fetched: Result<TypedValue, StorageError>,
    after: Tables,
)
    requires
        effect(Operation::GetLinksToProcess { limit }, before, after, fetched),
    ensures
        fetched is Ok <==> limit >= 0,
        fetched is Ok ==> fetched->Ok_0 is Links && fetched->Ok_0->Links_0@.len() <= limit
            && forall|i: int|
            0 <= i < fetched->Ok_0->Links_0@.len() ==> !(
            #[trigger] fetched->Ok_0->Links_0@[i]).processed,
{
    lemma_pending_are_unprocessed(before.links_processed);
}

/// A batch of category rows stores exactly its acceptable rows, in order: as
/// many as the batch is long where all are acceptable, and strictly fewer
/// where one is not. A row that is skipped does not keep a later acceptable
/// row from being stored.
pub proof fn lemma_batch_stores_acceptable(rows: Seq<CategoryToPage>)
    ensures
        accepted_rows(rows).len() <= rows.len(),
        forall|i: int|
            0 <= i < accepted_rows(rows).len() ==> (#[trigger] accepted_rows(rows)[i]).acceptable(),
        forall|i: int|
            0 <= i < rows.len() && (#[trigger] rows[i]).acceptable() ==> accepted_rows(
                rows,
            ).contains(rows[i]),
        (forall|i: int| 0 <= i < rows.len() ==> (#[trigger] rows[i]).acceptable())
            ==> accepted_rows(rows) == rows,
        (exists|i: int| 0 <= i < rows.len() && !(#[trigger] rows[i]).acceptable())
            ==> accepted_rows(rows).len() < rows.len(),
    decreases rows.len(),
{
    if rows.len() > 0 {
        let earlier = rows.drop_last();
        let kept = accepted_rows(rows);
        lemma_batch_stores_acceptable(earlier);
        assert forall|i: int| 0 <= i < rows.len() && (#[trigger] rows[i]).acceptable() implies kept.contains(
            rows[i],
        ) by {
            if i < earlier.len() {
                assert(earlier[i] == rows[i]);
                let k = choose|k: int|
                    0 <= k < accepted_rows(earlier).len() && accepted_rows(earlier)[k] == rows[i];
                assert(kept[k] == rows[i]);
            } else {
                assert(kept[kept.len() - 1] == rows[i]);
            }
        }
        if forall|i: int| 0 <= i < rows.len() ==> (#[trigger] rows[i]).acceptable() {
            assert forall|i: int| 0 <= i < earlier.len() implies (
            #[trigger] earlier[i]).acceptable() by {
                assert(earlier[i] == rows[i]);
            }
            assert(kept =~= rows);
        }
        if exists|i: int| 0 <= i < rows.len() && !(#[trigger] rows[i]).acceptable() {
            let bad = choose|i: int| 0 <= i < rows.len() && !(#[trigger] rows[i]).acceptable();
            if bad < earlier.len() {
                assert(!earlier[bad].acceptable());
            }
        }
    }
}

/// The count that a batch insert reports is below the batch's length as soon
/// as one of its rows is not acceptable.
pub proof fn lemma_batch_count(
    before: Tables,
    rows: Vec<CategoryToPage>,
    stored: Result<TypedValue, StorageError>,
    after: Tables,
)
    requires
        effect(Operation::InsertCategoriesForPage { categories: rows }, before, after, stored),
        exists|i: int| 0 <= i < rows@.len() && !(#[trigger] rows@[i]).acceptable(),
    ensures
        stored is Ok,
        stored->Ok_0 is RowCount,
        stored->Ok_0->RowCount_0 < rows@.len(),
        stored->Ok_0->RowCount_0 == accepted_rows(rows@).len(),
{
    lemma_batch_stores_acceptable(rows@);
    assert(rows.len() == rows@.len());
}

/// A listing in ascending order names nothing twice.
pub proof fn lemma_ascending_is_distinct(names: Seq<String>)
    requires
        ascending(names),
    ensures
        forall|i: int, j: int| 0 <= i < names.len() && 0 <= j < names.len() && i != j ==> names[i]@
            != names[j]@,
{
    assert forall|i: int, j: int|
        0 <= i < names.len() && 0 <= j < names.len() && i != j implies names[i]@ != names[j]@ by {
        if i < j {
            lemma_name_order(names[i]@, names[j]@, names[i]@);
        } else {
            lemma_name_order(names[j]@, names[i]@, names[j]@);
        }
    }
}

/// The names of a listing, in its order.
pub open spec fn names_of(listing: Seq<String>) -> Seq<Seq<char>> {
    Seq::new(listing.len(), |i: int| listing[i]@)
}

/// Two listings in ascending order that name the same categories are the
/// same listing: the order and the set of names leave no choice.
pub proof fn lemma_listing_is_determined(x: Seq<String>, y: Seq<String>)
    requires
        ascending(x),
        ascending(y),
        forall|name: Seq<char>| has_category(x, name) <==> has_category(y, name),
    ensures
        names_of(x) == names_of(y),
    decreases x.len(),
{
    if x.len() == 0 {
        if y.len() > 0 {
            assert(has_category(y, y[0]@));
        }
        assert(names_of(x) =~= names_of(y));
    } else {
        let top = x.last()@;
        assert(x[x.len() - 1]@ == top);
        assert(has_category(x, top));
        let j = choose|j: int| 0 <= j < y.len() && #[trigger] y[j]@ == top;
        if j < y.len() - 1 {
            let above = y[y.len() - 1]@;
            assert(name_before(top, above));
            assert(has_category(y, above));
            let i = choose|i: int| 0 <= i < x.len() && #[trigger] x[i]@ == above;
            if i < x.len() - 1 {
                lemma_name_order(top, above, top);
            } else {
                lemma_name_order(top, top, top);
            }
        }
        assert(j == y.len() - 1);
        assert(y[y.len() - 1]@ == top);
        let xs = x.drop_last();
        let ys = y.drop_last();
        assert forall|name: Seq<char>| has_category(xs, name) <==> has_category(ys, name) by {
            if has_category(xs, name) {
                let i = choose|i: int| 0 <= i < xs.len() && #[trigger] xs[i]@ == name;
                assert(x[i]@ == name);
                assert(name_before(x[i]@, x[x.len() - 1]@));
                lemma_name_order(name, top, name);
                assert(has_category(x, name));
                let k = choose|k: int| 0 <= k < y.len() && #[trigger] y[k]@ == name;
                assert(k < y.len() - 1);
                assert(ys[k]@ == name);
            }
            if has_category(ys, name) {
                let k = choose|k: int| 0 <= k < ys.len() && #[trigger] ys[k]@ == name;
                assert(y[k]@ == name);
                assert(name_before(y[k]@, y[y.len() - 1]@));
                lemma_name_order(name, top, name);
                assert(has_category(y, name));
                let i = choose|i: int| 0 <= i < x.len() && #[trigger] x[i]@ == name;
                assert(i < x.len() - 1);
                assert(xs[i]@ == name);
            }
        }
        lemma_listing_is_determined(xs, ys);
        assert(names_of(xs).len() == names_of(ys).len());
        assert forall|i: int| 0 <= i < x.len() implies names_of(x)[i] == names_of(y)[i] by {
            if i < xs.len() {
                assert(names_of(xs)[i] == names_of(ys)[i]);
            }
        }
        assert(names_of(x) =~= names_of(y));
    }
}

/// The listing of categories follows from the page/category links alone:
/// stores that hold the same links list the same names in the same order.
pub proof fn lemma_categories_follow_links(a: Tables, b: Tables)
    requires
        well_formed(a),
        well_formed(b),
        a.categories_to_pages == b.categories_to_pages,
    ensures
        names_of(a.categories) == names_of(b.categories),
{
    assert forall|name: Seq<char>|
        has_category(a.categories, name) <==> has_category(b.categories, name) by {
        if has_category(a.categories, name) {
            let i = choose|i: int| 0 <= i < a.categories.len() && #[trigger] a.categories[i]@ == name;
            let r = choose|r: int|
                0 <= r < a.categories_to_pages.len() && #[trigger] a.categories_to_pages[r].category@
                    == a.categories[i]@;
            assert(has_category(b.categories, b.categories_to_pages[r].category@));
        }
        if has_category(b.categories, name) {
            let i = choose|i: int| 0 <= i < b.categories.len() && #[trigger] b.categories[i]@ == name;
            let r = choose|r: int|
                0 <= r < b.categories_to_pages.len() && #[trigger] b.categories_to_pages[r].category@
                    == b.categories[i]@;
            assert(has_category(a.categories, a.categories_to_pages[r].category@));
        }
    }
    lemma_listing_is_determined(a.categories, b.categories);
}

/// Every page of a table holds at most 25 rows, starts at row
/// `25 * page_number`, and follows the order of the table; consecutive pages
/// put together give the table back.
pub proof fn lemma_pages_tile<T>(rows: Seq<T>, page_number: int)
    requires
        page_number >= 0,
    ensures
        page_of(rows, page_number).len() <= 25,
        spec_page_offset(page_number) == 25 * page_number,
        spec_page_offset(page_number + 1) == spec_page_offset(page_number) + 25,
        forall|i: int|
            0 <= i < page_of(rows, page_number).len() ==> #[trigger] page_of(rows, page_number)[i]
                == rows[spec_page_offset(page_number) + i],
        page_of(rows, page_number).len() < 25 ==> page_of(rows, page_number + 1).len() == 0,
{
}

/// A title that was reported done is not handed out again, and reporting it
/// adds nothing to what is handed out.
pub proof fn lemma_done_leaves_queue(links: Seq<LinkProcessed>, title: Seq<char>)
    ensures
        forall|i: int|
            0 <= i < pending_links(marked_links(links, title)).len() ==> (
            #[trigger] pending_links(marked_links(links, title))[i]).title@ != title,
        pending_links(marked_links(links, title)).len() <= pending_links(links).len(),
{
    let marked = marked_links(links, title);
    lemma_pending_are_unprocessed(marked);
    assert forall|i: int| 0 <= i < pending_links(marked).len() implies (#[trigger] pending_links(
        marked,
    )[i]).title@ != title by {
        let row = pending_links(marked)[i];
        assert(marked.contains(row));
        let k = choose|k: int| 0 <= k < marked.len() && marked[k] == row;
        assert(!marked[k].processed);
    }
    lemma_marking_shrinks_pending(links, title);
}

/// Marking a title never lengthens the list of links that are still to be
/// processed.
pub proof fn lemma_marking_shrinks_pending(links: Seq<LinkProcessed>, title: Seq<char>)
    ensures
        pending_links(marked_links(links, title)).len() <= pending_links(links).len(),
    decreases links.len(),
{
    if links.len() > 0 {
        lemma_marking_shrinks_pending(links.drop_last(), title);
        assert(marked_links(links, title).drop_last() =~= marked_links(links.drop_last(), title));
    }
}

/// Among the `k`-th and later workers of a round, the search finds a live
/// worker where there is one and none where there is none.
pub proof fn lemma_search_finds_alive(alive: Seq<bool>, cursor: int, k: int)
    requires
        0 <= cursor < alive.len(),
        0 <= k <= alive.len(),
    ensures
        first_alive_from(alive, cursor, k) is None <==> forall|j: int|
            k <= j < alive.len() ==> !alive[#[trigger] slot(alive.len() as int, cursor, j)],
        first_alive_from(alive, cursor, k) is Some ==> 0 <= first_alive_from(
            alive,
            cursor,
            k,
        )->Some_0 < alive.len() && alive[first_alive_from(alive, cursor, k)->Some_0],
    decreases alive.len() - k,
{
    if k < alive.len() {
        lemma_search_finds_alive(alive, cursor, k + 1);
        if !alive[slot(alive.len() as int, cursor, k)] {
            assert forall|j: int| k <= j < alive.len() && (forall|m: int|
                k + 1 <= m < alive.len() ==> !alive[#[trigger] slot(
                    alive.len() as int,
                    cursor,
                    m,
                )]) implies !alive[#[trigger] slot(alive.len() as int, cursor, j)] by {}
        }
    }
}

/// An operation is routed to a live worker whenever one is alive, and to none
/// only when every worker has terminated.
pub proof fn lemma_routing_finds_live_worker(alive: Seq<bool>, cursor: int)
    requires
        0 <= cursor < alive.len(),
    ensures
        next_worker(alive, cursor) is None <==> forall|w: int| 0 <= w < alive.len() ==> !alive[w],
        next_worker(alive, cursor) is Some ==> 0 <= next_worker(alive, cursor)->Some_0
            < alive.len() && alive[next_worker(alive, cursor)->Some_0],
        alive[cursor] ==> next_worker(alive, cursor) == Some(cursor),
{
    let n = alive.len() as int;
    lemma_search_finds_alive(alive, cursor, 0);
    if next_worker(alive, cursor) is None {
        assert forall|w: int| 0 <= w < n implies !alive[w] by {
            let j = if w >= cursor {
                w - cursor
            } else {
                w - cursor + n
            };
            assert(slot(n, cursor, j) == w);
        }
    } else {
        let w = next_worker(alive, cursor)->Some_0;
        assert(alive[w]);
    }
}

/// A queue hands operations out in the order in which they were queued: an
/// operation that joins a queue leaves its head as it was and comes after
/// everything that waited before it.
pub proof fn lemma_queue_is_fifo(queue: Seq<Pending>, joined: Pending)
    requires
        queue.len() > 0,
    ensures
        queue.push(joined)[0] == queue[0],
        queue.push(joined).drop_first() == queue.drop_first().push(joined),
        queue.push(joined).last() == joined,
{
    assert(queue.push(joined).drop_first() =~= queue.drop_first().push(joined));
}

} // verus!
