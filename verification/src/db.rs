//! The store: one table per entity, and the operations that read and fill them.
//!
//! Rows are never deleted. The only change to a stored row is the flip of a
//! link's `processed` flag.

use vstd::prelude::*;
use crate::error::StorageError;
use crate::models::{CategoryToPage, Conspiracy, ConspiracyTag, LinkProcessed, NewTag, Tag};
use crate::names::{lemma_name_order, name_before, position, same_name, Position};
use crate::paging::{page_bounds, page_of};

verus! {

/// What the store holds, table by table, each in insertion order.
pub struct Tables {
    pub conspiracies: Seq<Conspiracy>,
    pub tags: Seq<Tag>,
    pub conspiracy_tags: Seq<ConspiracyTag>,
    pub categories: Seq<String>,
    pub categories_to_pages: Seq<CategoryToPage>,
    pub links_processed: Seq<LinkProcessed>,
}

/// Some page has the id `id`.
pub open spec fn has_page(pages: Seq<Conspiracy>, id: Seq<char>) -> bool {
    exists|i: int| 0 <= i < pages.len() && #[trigger] pages[i].page_id@ == id
}

/// The page with the id `id`, where there is one.
pub open spec fn page_by_id(pages: Seq<Conspiracy>, id: Seq<char>) -> Conspiracy {
    pages[choose|i: int| 0 <= i < pages.len() && #[trigger] pages[i].page_id@ == id]
}

/// Some link has the title `title`.
pub open spec fn has_link(links: Seq<LinkProcessed>, title: Seq<char>) -> bool {
    exists|i: int| 0 <= i < links.len() && #[trigger] links[i].title@ == title
}

/// The category `name` is listed.
pub open spec fn has_category(categories: Seq<String>, name: Seq<char>) -> bool {
    exists|i: int| 0 <= i < categories.len() && #[trigger] categories[i]@ == name
}

/// Some page is filed under the category `name`.
pub open spec fn category_in_use(rows: Seq<CategoryToPage>, name: Seq<char>) -> bool {
    exists|i: int| 0 <= i < rows.len() && #[trigger] rows[i].category@ == name
}

/// The names are in strictly ascending order, so none occurs twice.
pub open spec fn ascending(names: Seq<String>) -> bool {
    forall|i: int, j: int| 0 <= i < j < names.len() ==> name_before(names[i]@, names[j]@)
}

/// No two pages share a `page_id`.
pub open spec fn distinct_page_ids(pages: Seq<Conspiracy>) -> bool {
    forall|i: int, j: int| 0 <= i < j < pages.len() ==> pages[i].page_id@ != pages[j].page_id@
}

/// The pages that the links of tag `tag_id` lead to, one for each such link
/// in the order of the links; a link to a page that is not stored gives none.
pub open spec fn pages_with_tag(
    pages: Seq<Conspiracy>,
    links: Seq<ConspiracyTag>,
    tag_id: i32,
) -> Seq<Conspiracy>
    decreases links.len(),
{
    if links.len() == 0 {
        Seq::empty()
    } else {
        let earlier = pages_with_tag(pages, links.drop_last(), tag_id);
        let link = links.last();
        if link.tag_id == tag_id && has_page(pages, link.conspiracy_id@) {
            earlier.push(page_by_id(pages, link.conspiracy_id@))
        } else {
            earlier
        }
    }
}

/// The links that are still to be processed, in the order of the table.
pub open spec fn pending_links(links: Seq<LinkProcessed>) -> Seq<LinkProcessed>
    decreases links.len(),
{
    if links.len() == 0 {
        Seq::empty()
    } else if links.last().processed {
        pending_links(links.drop_last())
    } else {
        pending_links(links.drop_last()).push(links.last())
    }
}

/// The number of links that a fetch with the limit `limit` hands out.
pub open spec fn batch_len(links: Seq<LinkProcessed>, limit: int) -> int {
    if limit <= pending_links(links).len() {
        limit
    } else {
        pending_links(links).len() as int
    }
}

/// The table of links after every link titled `title` was marked as processed.
pub open spec fn marked_links(links: Seq<LinkProcessed>, title: Seq<char>) -> Seq<LinkProcessed> {
    Seq::new(
        links.len(),
        |i: int|
            if links[i].title@ == title {
                LinkProcessed { title: links[i].title, processed: true }
            } else {
                links[i]
            },
    )
}

/// The rows of `rows` that the store accepts, in their order.
pub open spec fn accepted_rows(rows: Seq<CategoryToPage>) -> Seq<CategoryToPage>
    decreases rows.len(),
{
    if rows.len() == 0 {
        Seq::empty()
    } else if rows.last().acceptable() {
        accepted_rows(rows.drop_last()).push(rows.last())
    } else {
        accepted_rows(rows.drop_last())
    }
}

/// The constraints that the tables keep at all times.
pub open spec fn well_formed(t: Tables) -> bool {
    &&& distinct_page_ids(t.conspiracies)
    &&& t.tags.len() <= i32::MAX
    &&& forall|i: int| 0 <= i < t.tags.len() ==> (#[trigger] t.tags[i]).id == i + 1
    &&& forall|i: int, j: int|
        0 <= i < j < t.links_processed.len() ==> t.links_processed[i].title@
            != t.links_processed[j].title@
    &&& ascending(t.categories)
    &&& forall|i: int|
        0 <= i < t.categories.len() ==> category_in_use(
            t.categories_to_pages,
            #[trigger] t.categories[i]@,
        )
    &&& forall|i: int|
        0 <= i < t.categories_to_pages.len() ==> has_category(
            t.categories,
            #[trigger] t.categories_to_pages[i].category@,
        )
    &&& forall|i: int|
        0 <= i < t.categories_to_pages.len() ==> (#[trigger] t.categories_to_pages[i]).acceptable()
}

/// The store that a connection gives access to.
pub struct Database {
    conspiracies: Vec<Conspiracy>,
    tags: Vec<Tag>,
    conspiracy_tags: Vec<ConspiracyTag>,
    categories: Vec<String>,
    categories_to_pages: Vec<CategoryToPage>,
    links_processed: Vec<LinkProcessed>,
}

impl View for Database {
    type V = Tables;

    closed spec fn view(&self) -> Tables {
        Tables {
            conspiracies: self.conspiracies@,
            tags: self.tags@,
            conspiracy_tags: self.conspiracy_tags@,
            categories: self.categories@,
            categories_to_pages: self.categories_to_pages@,
            links_processed: self.links_processed@,
        }
    }
}

impl Database {
    /// The tables keep their constraints.
    pub open spec fn wf(&self) -> bool {
        well_formed(self@)
    }

    /// A store with six empty tables.
    pub fn new() -> (db: Database)
        ensures
            db.wf(),
            db@.conspiracies.len() == 0,
            db@.tags.len() == 0,
            db@.conspiracy_tags.len() == 0,
            db@.categories.len() == 0,
            db@.categories_to_pages.len() == 0,
            db@.links_processed.len() == 0,
    {
        Database {
            conspiracies: Vec::new(),
            tags: Vec::new(),
            conspiracy_tags: Vec::new(),
            categories: Vec::new(),
            categories_to_pages: Vec::new(),
            links_processed: Vec::new(),
        }
    }
}

/// Copies the rows `rows[start..end]`.
fn copy_pages(rows: &Vec<Conspiracy>, start: usize, end: usize) -> (out: Vec<Conspiracy>)
    requires
        start <= end <= rows.len(),
    ensures
        out@ == rows@.subrange(start as int, end as int),
{
    let mut out: Vec<Conspiracy> = Vec::new();
    let mut i: usize = start;
    while i < end
        invariant
            start <= i <= end <= rows.len(),
            out@ == rows@.subrange(start as int, i as int),
        decreases end - i,
    {
        out.push(rows[i].clone());
        assert(out@ =~= rows@.subrange(start as int, i + 1));
        i += 1;
    }
    out
}

/// The place of the page with the id `id`.
fn find_page(pages: &Vec<Conspiracy>, id: &str) -> (place: Option<usize>)
    requires
        distinct_page_ids(pages@),
    ensures
        place is Some <==> has_page(pages@, id@),
        place is Some ==> place->Some_0 < pages.len() && pages@[place->Some_0 as int]
            == page_by_id(pages@, id@) && pages@[place->Some_0 as int].page_id@ == id@,
{
    let mut i: usize = 0;
    while i < pages.len()
        invariant
            i <= pages.len(),
            distinct_page_ids(pages@),
            forall|j: int| 0 <= j < i ==> pages@[j].page_id@ != id@,
        decreases pages.len() - i,
    {
        if same_name(pages[i].page_id.as_str(), id) {
            proof {
                let k = choose|k: int| 0 <= k < pages@.len() && #[trigger] pages@[k].page_id@ == id@;
                assert(k == i);
            }
            return Some(i);
        }
        i += 1;
    }
    None
}

/// Adds a page. A page whose `page_id` is already stored is refused with
/// `Conflict`, and the table stays as it was.
pub fn add_conspiracy(conn: &mut Database, conspiracy: &Conspiracy) -> (result: Result<
    usize,
    StorageError,
>)
    requires
        old(conn).wf(),
    ensures
        final(conn).wf(),
        has_page(old(conn)@.conspiracies, conspiracy.page_id@) ==> result == Err::<
            usize,
            StorageError,
        >(StorageError::Conflict) && final(conn)@ == old(conn)@,
        !has_page(old(conn)@.conspiracies, conspiracy.page_id@) ==> result == Ok::<
            usize,
            StorageError,
        >(1) && final(conn)@ == (Tables {
            conspiracies: old(conn)@.conspiracies.push(*conspiracy),
            ..old(conn)@
        }),
{
    if find_page(&conn.conspiracies, conspiracy.page_id.as_str()).is_some() {
        return Err(StorageError::Conflict);
    }
    conn.conspiracies.push(conspiracy.clone());
    Ok(1)
}

/// Looks a page up by its exact `page_id`.
pub fn get_conspiracy_by_id(conn: &Database, id: &str) -> (result: Result<Conspiracy, StorageError>)
    requires
        conn.wf(),
    ensures
        has_page(conn@.conspiracies, id@) ==> result == Ok::<Conspiracy, StorageError>(
            page_by_id(conn@.conspiracies, id@),
        ),
        !has_page(conn@.conspiracies, id@) ==> result == Err::<Conspiracy, StorageError>(
            StorageError::NotFound,
        ),
        result is Ok ==> result->Ok_0.page_id@ == id@ && conn@.conspiracies.contains(
            result->Ok_0,
        ),
{
    match find_page(&conn.conspiracies, id) {
        Some(place) => Ok(conn.conspiracies[place].clone()),
        None => Err(StorageError::NotFound),
    }
}

/// One page of the pages table, in insertion order. A negative page number is
/// refused with `Validation`.
pub fn get_conspiracies(conn: &Database, page_number: i64) -> (result: Result<
    Vec<Conspiracy>,
    StorageError,
>)
    requires
        conn.wf(),
    ensures
        page_number < 0 ==> result == Err::<Vec<Conspiracy>, StorageError>(
            StorageError::Validation,
        ),
        page_number >= 0 ==> result is Ok && result->Ok_0@ == page_of(
            conn@.conspiracies,
            page_number as int,
        ) && result->Ok_0@.len() <= 25,
{
    if page_number < 0 {
        return Err(StorageError::Validation);
    }
    let (start, end) = page_bounds(conn.conspiracies.len(), page_number);
    Ok(copy_pages(&conn.conspiracies, start, end))
}

/// Copies the rows `rows[start..end]`.
fn copy_tags(rows: &Vec<Tag>, start: usize, end: usize) -> (out: Vec<Tag>)
    requires
        start <= end <= rows.len(),
    ensures
        out@ == rows@.subrange(start as int, end as int),
{
    let mut out: Vec<Tag> = Vec::new();
    let mut i: usize = start;
    while i < end
        invariant
            start <= i <= end <= rows.len(),
            out@ == rows@.subrange(start as int, i as int),
        decreases end - i,
    {
        out.push(rows[i].clone());
        assert(out@ =~= rows@.subrange(start as int, i + 1));
        i += 1;
    }
    out
}

/// Stores a tag under the next free id and returns it as stored. Ids count up
/// from 1 in insertion order; names may repeat. Once every positive `i32` is
/// taken the insert fails with `Backend` and the table stays as it was.
pub fn add_tag(conn: &mut Database, new_tag: NewTag) -> (result: Result<Tag, StorageError>)
    requires
        old(conn).wf(),
    ensures
        final(conn).wf(),
        old(conn)@.tags.len() < i32::MAX ==> result == Ok::<Tag, StorageError>(
            Tag { id: (old(conn)@.tags.len() + 1) as i32, name: new_tag.name },
        ) && final(conn)@ == (Tables {
            tags: old(conn)@.tags.push(result->Ok_0),
            ..old(conn)@
        }),
        old(conn)@.tags.len() >= i32::MAX ==> final(conn)@ == old(conn)@ && (result matches Err(
            StorageError::Backend(message),
        ) && message@ == "no tag id is left"@),
{
    let stored = conn.tags.len();
    if stored >= 2147483647 {
        return Err(StorageError::Backend("no tag id is left".to_owned()));
    }
    let tag = Tag { id: (stored + 1) as i32, name: new_tag.name };
    conn.tags.push(tag.clone());
    Ok(tag)
}

/// One page of the tags table, in insertion order. A negative page number is
/// refused with `Validation`.
pub fn get_tags(conn: &Database, page_number: i64) -> (result: Result<Vec<Tag>, StorageError>)
    requires
        conn.wf(),
    ensures
        page_number < 0 ==> result == Err::<Vec<Tag>, StorageError>(StorageError::Validation),
        page_number >= 0 ==> result is Ok && result->Ok_0@ == page_of(
            conn@.tags,
            page_number as int,
        ) && result->Ok_0@.len() <= 25,
{
    if page_number < 0 {
        return Err(StorageError::Validation);
    }
    let (start, end) = page_bounds(conn.tags.len(), page_number);
    Ok(copy_tags(&conn.tags, start, end))
}

/// Links a page to a tag. Neither side is looked up: a link to a page or a
/// tag that is not stored is kept, and so is a link that is already there.
pub fn tag_conspiracy(conn: &mut Database, tag: &ConspiracyTag) -> (result: Result<
    usize,
    StorageError,
>)
    requires
        old(conn).wf(),
    ensures
        final(conn).wf(),
        result == Ok::<usize, StorageError>(1),
        final(conn)@ == (Tables {
            conspiracy_tags: old(conn)@.conspiracy_tags.push(*tag),
            ..old(conn)@
        }),
{
    conn.conspiracy_tags.push(tag.clone());
    Ok(1)
}

/// Every page that a link of tag `tag_id` leads to.
fn join_tag(conn: &Database, tag_id: i32) -> (out: Vec<Conspiracy>)
    requires
        conn.wf(),
    ensures
        out@ == pages_with_tag(conn@.conspiracies, conn@.conspiracy_tags, tag_id),
{
    let mut out: Vec<Conspiracy> = Vec::new();
    let mut i: usize = 0;
    while i < conn.conspiracy_tags.len()
        invariant
            i <= conn.conspiracy_tags.len(),
            conn.wf(),
            out@ == pages_with_tag(
                conn@.conspiracies,
                conn@.conspiracy_tags.take(i as int),
                tag_id,
            ),
        decreases conn.conspiracy_tags.len() - i,
    {
        assert(conn@.conspiracy_tags.take(i + 1).drop_last() =~= conn@.conspiracy_tags.take(
            i as int,
        ));
        if conn.conspiracy_tags[i].tag_id == tag_id {
            match find_page(&conn.conspiracies, conn.conspiracy_tags[i].conspiracy_id.as_str()) {
                Some(place) => {
                    out.push(conn.conspiracies[place].clone());
                },
                None => {},
            }
        }
        i += 1;
    }
    assert(conn@.conspiracy_tags.take(i as int) =~= conn@.conspiracy_tags);
    out
}

/// One page of the pages that carry the tag `tag_id`: the inner join of the
/// tag links with the pages, in the order of the links. A tag that no stored
/// page carries gives an empty page. A negative page number is refused with
/// `Validation`.
pub fn get_conspiracies_by_tag(conn: &Database, tag_id: i32, page_number: i64) -> (result: Result<
    Vec<Conspiracy>,
    StorageError,
>)
    requires
        conn.wf(),
    ensures
        page_number < 0 ==> result == Err::<Vec<Conspiracy>, StorageError>(
            StorageError::Validation,
        ),
        page_number >= 0 ==> result is Ok && result->Ok_0@ == page_of(
            pages_with_tag(conn@.conspiracies, conn@.conspiracy_tags, tag_id),
            page_number as int,
        ) && result->Ok_0@.len() <= 25,
{
    if page_number < 0 {
        return Err(StorageError::Validation);
    }
    let joined = join_tag(conn, tag_id);
    let (start, end) = page_bounds(joined.len(), page_number);
    Ok(copy_pages(&joined, start, end))
}

/// The place of the link titled `title`.
fn find_link(links: &Vec<LinkProcessed>, title: &str) -> (place: Option<usize>)
    ensures
        place is Some <==> has_link(links@, title@),
        place is Some ==> place->Some_0 < links.len() && links@[place->Some_0 as int].title@
            == title@,
{
    let mut i: usize = 0;
    while i < links.len()
        invariant
            i <= links.len(),
            forall|j: int| 0 <= j < i ==> links@[j].title@ != title@,
        decreases links.len() - i,
    {
        if same_name(links[i].title.as_str(), title) {
            return Some(i);
        }
        i += 1;
    }
    None
}

/// Queues a link. A link whose title is already queued is refused with
/// `Conflict`, and the table stays as it was: each title has one row.
pub fn add_link_process(conn: &mut Database, link: &LinkProcessed) -> (result: Result<
    usize,
    StorageError,
>)
    requires
        old(conn).wf(),
    ensures
        final(conn).wf(),
        has_link(old(conn)@.links_processed, link.title@) ==> result == Err::<
            usize,
            StorageError,
        >(StorageError::Conflict) && final(conn)@ == old(conn)@,
        !has_link(old(conn)@.links_processed, link.title@) ==> result == Ok::<
            usize,
            StorageError,
        >(1) && final(conn)@ == (Tables {
            links_processed: old(conn)@.links_processed.push(*link),
            ..old(conn)@
        }),
{
    if find_link(&conn.links_processed, link.title.as_str()).is_some() {
        return Err(StorageError::Conflict);
    }
    conn.links_processed.push(link.clone());
    Ok(1)
}

/// Marks the link titled exactly `link_title` as processed and returns how
/// many rows matched: 1, or 0 where no link has that title, which is no
/// error. The title is compared as data, whatever characters it holds, and no
/// other row changes.
pub fn mark_link_as_processed(conn: &mut Database, link_title: &str) -> (result: Result<
    usize,
    StorageError,
>)
    requires
        old(conn).wf(),
    ensures
        final(conn).wf(),
        result == Ok::<usize, StorageError>(
            if has_link(old(conn)@.links_processed, link_title@) {
                1usize
            } else {
                0usize
            },
        ),
        final(conn)@ == (Tables {
            links_processed: marked_links(old(conn)@.links_processed, link_title@),
            ..old(conn)@
        }),
{
    match find_link(&conn.links_processed, link_title) {
        Some(place) => {
            let title = conn.links_processed[place].title.clone();
            conn.links_processed.set(place, LinkProcessed { title, processed: true });
            assert(conn.links_processed@ =~= marked_links(
                old(conn)@.links_processed,
                link_title@,
            ));
            Ok(1)
        },
        None => {
            assert(conn.links_processed@ =~= marked_links(
                old(conn)@.links_processed,
                link_title@,
            ));
            Ok(0)
        },
    }
}

/// What is pending among the first `i` links stays at the head of what is
/// pending among all of them.
pub proof fn lemma_pending_prefix(links: Seq<LinkProcessed>, i: int)
    requires
        0 <= i <= links.len(),
    ensures
        pending_links(links.take(i)).len() <= pending_links(links).len(),
        pending_links(links.take(i)) == pending_links(links).take(
            pending_links(links.take(i)).len() as int,
        ),
    decreases links.len() - i,
{
    if i == links.len() {
        assert(links.take(i) =~= links);
        assert(pending_links(links) =~= pending_links(links).take(
            pending_links(links).len() as int,
        ));
    } else {
        lemma_pending_prefix(links, i + 1);
        assert(links.take(i + 1).drop_last() =~= links.take(i));
        let longer = pending_links(links.take(i + 1));
        let shorter = pending_links(links.take(i));
        assert(shorter =~= longer.take(shorter.len() as int));
        assert(shorter =~= pending_links(links).take(shorter.len() as int));
    }
}

/// Up to `num_links` links that are still to be processed, in the order of
/// the table. A negative limit is refused with `Validation`. The rows are
/// not reserved: a second caller may be handed the same ones.
pub fn get_links_to_process(conn: &Database, num_links: i32) -> (result: Result<
    Vec<LinkProcessed>,
    StorageError,
>)
    requires
        conn.wf(),
    ensures
        num_links < 0 ==> result == Err::<Vec<LinkProcessed>, StorageError>(
            StorageError::Validation,
        ),
        num_links >= 0 ==> result is Ok && result->Ok_0@ == pending_links(
            conn@.links_processed,
        ).take(batch_len(conn@.links_processed, num_links as int)),
        result is Ok ==> result->Ok_0@.len() <= num_links && forall|i: int|
            0 <= i < result->Ok_0@.len() ==> !(#[trigger] result->Ok_0@[i]).processed,
{
    if num_links < 0 {
        return Err(StorageError::Validation);
    }
    let ghost all = conn@.links_processed;
    let mut out: Vec<LinkProcessed> = Vec::new();
    let mut i: usize = 0;
    while i < conn.links_processed.len() && out.len() < num_links as usize
        invariant
            i <= conn.links_processed.len(),
            num_links >= 0,
            all == conn@.links_processed,
            out@ == pending_links(all.take(i as int)),
            out@.len() <= num_links,
            forall|k: int| 0 <= k < out@.len() ==> !(#[trigger] out@[k]).processed,
        decreases conn.links_processed.len() - i,
    {
        assert(all.take(i + 1).drop_last() =~= all.take(i as int));
        if !conn.links_processed[i].processed {
            out.push(conn.links_processed[i].clone());
        }
        i += 1;
    }
    proof {
        lemma_pending_prefix(all, i as int);
        if i == all.len() {
            assert(all.take(i as int) =~= all);
        }
    }
    Ok(out)
}

/// Copies the names `names[start..end]`.
fn copy_names(names: &Vec<String>, start: usize, end: usize) -> (out: Vec<String>)
    requires
        start <= end <= names.len(),
    ensures
        out@ == names@.subrange(start as int, end as int),
{
    let mut out: Vec<String> = Vec::new();
    let mut i: usize = start;
    while i < end
        invariant
            start <= i <= end <= names.len(),
            out@ == names@.subrange(start as int, i as int),
        decreases end - i,
    {
        out.push(names[i].clone());
        assert(out@ =~= names@.subrange(start as int, i + 1));
        i += 1;
    }
    out
}

/// Lists the category `name` at its place in the order, unless it is listed.
fn list_category(names: &mut Vec<String>, name: &String)
    requires
        ascending(old(names)@),
    ensures
        ascending(final(names)@),
        has_category(final(names)@, name@),
        forall|i: int|
            0 <= i < old(names)@.len() ==> has_category(final(names)@, #[trigger] old(names)@[i]@),
        forall|i: int|
            0 <= i < final(names)@.len() ==> (#[trigger] final(names)@[i])@ == name@
                || has_category(old(names)@, final(names)@[i]@),
{
    let mut place: usize = 0;
    while place < names.len()
        invariant
            place <= names.len(),
            *names == *old(names),
            ascending(names@),
            forall|j: int| 0 <= j < place ==> name_before(names@[j]@, name@),
        ensures
            place < names.len() ==> name_before(name@, names@[place as int]@),
        decreases names.len() - place,
    {
        match position(names[place].as_str(), name.as_str()) {
            Position::Before => {},
            Position::Same => {
                assert(forall|i: int|
                    0 <= i < names@.len() ==> has_category(names@, #[trigger] names@[i]@));
                return ;
            },
            Position::After => {
                break ;
            },
        }
        place += 1;
    }
    proof {
        assert forall|j: int| place <= j < names@.len() implies name_before(
            name@,
            #[trigger] names@[j]@,
        ) by {
            if j > place {
                lemma_name_order(name@, names@[place as int]@, names@[j]@);
            }
        }
    }
    let ghost before = names@;
    names.insert(place, name.clone());
    proof {
        let after = names@;
        assert(after[place as int]@ == name@);
        assert forall|i: int| 0 <= i < before.len() implies has_category(
            after,
            #[trigger] before[i]@,
        ) by {
            if i < place {
                assert(after[i]@ == before[i]@);
            } else {
                assert(after[i + 1]@ == before[i]@);
            }
        }
        assert forall|i: int| 0 <= i < after.len() implies (#[trigger] after[i])@ == name@
            || has_category(before, after[i]@) by {
            if i < place {
                assert(before[i]@ == after[i]@);
            } else if i > place {
                assert(before[i - 1]@ == after[i]@);
            }
        }
    }
}

/// Files pages under categories, row by row. A row with an empty category or
/// an empty page id is skipped and the rows after it are still tried. The
/// result is the number of rows that were stored.
pub fn add_categories(conn: &mut Database, categories: Vec<CategoryToPage>) -> (result: Result<
    usize,
    StorageError,
>)
    requires
        old(conn).wf(),
    ensures
        final(conn).wf(),
        result == Ok::<usize, StorageError>(accepted_rows(categories@).len() as usize),
        accepted_rows(categories@).len() <= categories@.len(),
        final(conn)@.categories_to_pages == old(conn)@.categories_to_pages + accepted_rows(
            categories@,
        ),
        final(conn)@.conspiracies == old(conn)@.conspiracies,
        final(conn)@.tags == old(conn)@.tags,
        final(conn)@.conspiracy_tags == old(conn)@.conspiracy_tags,
        final(conn)@.links_processed == old(conn)@.links_processed,
{
    let mut stored: usize = 0;
    let mut i: usize = 0;
    assert(conn@.categories_to_pages =~= old(conn)@.categories_to_pages + accepted_rows(
        categories@.take(0),
    ));
    while i < categories.len()
        invariant
            i <= categories.len(),
            conn.wf(),
            stored == accepted_rows(categories@.take(i as int)).len(),
            stored <= i,
            conn@.categories_to_pages == old(conn)@.categories_to_pages + accepted_rows(
                categories@.take(i as int),
            ),
            conn@.conspiracies == old(conn)@.conspiracies,
            conn@.tags == old(conn)@.tags,
            conn@.conspiracy_tags == old(conn)@.conspiracy_tags,
            conn@.links_processed == old(conn)@.links_processed,
        decreases categories.len() - i,
    {
        assert(categories@.take(i + 1).drop_last() =~= categories@.take(i as int));
        if categories[i].is_acceptable() {
            let ghost rows = conn@.categories_to_pages;
            let ghost listed = conn@.categories;
            let row = categories[i].clone();
            list_category(&mut conn.categories, &row.category);
            conn.categories_to_pages.push(row);
            proof {
                let now = conn@;
                assert(now.categories_to_pages =~= old(conn)@.categories_to_pages + accepted_rows(
                    categories@.take(i + 1),
                ));
                assert forall|k: int| 0 <= k < now.categories.len() implies category_in_use(
                    now.categories_to_pages,
                    #[trigger] now.categories[k]@,
                ) by {
                    if now.categories[k]@ == row.category@ {
                        assert(now.categories_to_pages[rows.len() as int].category@
                            == row.category@);
                    } else {
                        assert(has_category(listed, now.categories[k]@));
                        let m = choose|m: int|
                            0 <= m < listed.len() && #[trigger] listed[m]@ == now.categories[k]@;
                        assert(category_in_use(rows, listed[m]@));
                        let r = choose|r: int|
                            0 <= r < rows.len() && #[trigger] rows[r].category@ == listed[m]@;
                        assert(now.categories_to_pages[r].category@ == now.categories[k]@);
                    }
                }
                assert forall|k: int| 0 <= k < now.categories_to_pages.len() implies has_category(
                    now.categories,
                    #[trigger] now.categories_to_pages[k].category@,
                ) by {
                    if k < rows.len() {
                        assert(now.categories_to_pages[k] == rows[k]);
                        assert(has_category(listed, rows[k].category@));
                        let m = choose|m: int|
                            0 <= m < listed.len() && #[trigger] listed[m]@ == rows[k].category@;
                        assert(has_category(now.categories, listed[m]@));
                    }
                }
            }
            stored += 1;
        }
        i += 1;
    }
    assert(categories@.take(i as int) =~= categories@);
    Ok(stored)
}

/// The places of the rows of a batch that the store would skip, in ascending
/// order, for whoever keeps a record of them.
pub fn skipped_rows(categories: &Vec<CategoryToPage>) -> (skipped: Vec<usize>)
    ensures
        skipped@.len() + accepted_rows(categories@).len() == categories@.len(),
        forall|k: int|
            0 <= k < skipped@.len() ==> (#[trigger] skipped@[k]) < categories@.len()
                && !categories@[skipped@[k] as int].acceptable(),
        forall|k: int, m: int| 0 <= k < m < skipped@.len() ==> skipped@[k] < skipped@[m],
        forall|i: int|
            0 <= i < categories@.len() && !(#[trigger] categories@[i]).acceptable()
                ==> skipped@.contains(i as usize),
{
    let mut skipped: Vec<usize> = Vec::new();
    let mut i: usize = 0;
    while i < categories.len()
        invariant
            i <= categories.len(),
            skipped@.len() + accepted_rows(categories@.take(i as int)).len() == i,
            forall|k: int|
                0 <= k < skipped@.len() ==> (#[trigger] skipped@[k]) < i
                    && !categories@[skipped@[k] as int].acceptable(),
            forall|k: int, m: int| 0 <= k < m < skipped@.len() ==> skipped@[k] < skipped@[m],
            forall|j: int|
                0 <= j < i && !(#[trigger] categories@[j]).acceptable() ==> skipped@.contains(
                    j as usize,
                ),
        decreases categories.len() - i,
    {
        assert(categories@.take(i + 1).drop_last() =~= categories@.take(i as int));
        if !categories[i].is_acceptable() {
            let ghost earlier = skipped@;
            skipped.push(i);
            assert(skipped@[earlier.len() as int] == i);
            assert forall|j: int|
                0 <= j < i + 1 && !(#[trigger] categories@[j]).acceptable() implies skipped@.contains(
                j as usize,
            ) by {
                if j < i {
                    let k = choose|k: int| 0 <= k < earlier.len() && earlier[k] == j as usize;
                    assert(skipped@[k] == j as usize);
                }
            }
        }
        i += 1;
    }
    assert(categories@.take(i as int) =~= categories@);
    skipped
}

/// One page of the category names that are in use: each name once, in
/// ascending byte order. A negative page number is refused with `Validation`.
pub fn get_categories(conn: &Database, page_number: i64) -> (result: Result<
    Vec<String>,
    StorageError,
>)
    requires
        conn.wf(),
    ensures
        page_number < 0 ==> result == Err::<Vec<String>, StorageError>(StorageError::Validation),
        page_number >= 0 ==> result is Ok && result->Ok_0@ == page_of(
            conn@.categories,
            page_number as int,
        ) && result->Ok_0@.len() <= 25,
{
    if page_number < 0 {
        return Err(StorageError::Validation);
    }
    let (start, end) = page_bounds(conn.categories.len(), page_number);
    Ok(copy_names(&conn.categories, start, end))
}

} // verus!
