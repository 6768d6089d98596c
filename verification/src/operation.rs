//! The typed operations that callers submit, and what a worker does with one.

use vstd::prelude::*;
use crate::db::{
    accepted_rows, add_categories, batch_len, add_conspiracy, add_link_process, add_tag, get_categories,
    get_conspiracies, get_conspiracies_by_tag, get_conspiracy_by_id, get_links_to_process,
    get_tags, has_link, has_page, mark_link_as_processed, marked_links, page_by_id,
    pages_with_tag, pending_links, tag_conspiracy, well_formed, Database, Tables,
};
use crate::error::StorageError;
use crate::models::{CategoryToPage, Conspiracy, ConspiracyTag, LinkProcessed, NewTag, Tag};
use crate::paging::page_of;

verus! {

/// A request to the store.
#[derive(Debug, PartialEq, Eq)]
pub enum Operation {
    InsertConspiracy { conspiracy: Conspiracy },
    InsertLinkProcessed { title: String },
    InsertTag { new_tag: NewTag },
    TagConspiracy { tag: ConspiracyTag },
    InsertCategoriesForPage { categories: Vec<CategoryToPage> },
    GetConspiracies { page_number: i64 },
    GetConspiracyById { page_id: String },
    GetConspiraciesByTag { tag_id: i32, page_number: i64 },
    GetTags { page_number: i64 },
    GetCategories { page_number: i64 },
    GetLinksToProcess { limit: i32 },
    MarkLinkProcessed { title: String },
}

/// What an operation hands back.
#[derive(Debug, PartialEq, Eq)]
pub enum TypedValue {
    RowCount(usize),
    Tag(Tag),
    Conspiracy(Conspiracy),
    Conspiracies(Vec<Conspiracy>),
    Tags(Vec<Tag>),
    Categories(Vec<String>),
    Links(Vec<LinkProcessed>),
}

/// What running `operation` on the tables `before` leaves behind and hands
/// back: the tables `after` and `result`.
pub open spec fn effect(
    operation: Operation,
    before: Tables,
    after: Tables,
    result: Result<TypedValue, StorageError>,
) -> bool {
    match operation {
        Operation::InsertConspiracy { conspiracy } => {
            if has_page(before.conspiracies, conspiracy.page_id@) {
                result == Err::<TypedValue, StorageError>(StorageError::Conflict) && after
                    == before
            } else {
                result == Ok::<TypedValue, StorageError>(TypedValue::RowCount(1)) && after == (
                Tables { conspiracies: before.conspiracies.push(conspiracy), ..before })
            }
        },
        Operation::InsertLinkProcessed { title } => {
            if has_link(before.links_processed, title@) {
                result == Err::<TypedValue, StorageError>(StorageError::Conflict) && after
                    == before
            } else {
                result == Ok::<TypedValue, StorageError>(TypedValue::RowCount(1)) && after == (
                Tables {
                    links_processed: before.links_processed.push(
                        LinkProcessed { title, processed: false },
                    ),
                    ..before
                })
            }
        },
        Operation::InsertTag { new_tag } => {
            if before.tags.len() < i32::MAX {
                let stored = Tag { id: (before.tags.len() + 1) as i32, name: new_tag.name };
                result == Ok::<TypedValue, StorageError>(TypedValue::Tag(stored)) && after == (
                Tables { tags: before.tags.push(stored), ..before })
            } else {
                after == before && (result matches Err(StorageError::Backend(message))
                    && message@ == "no tag id is left"@)
            }
        },
        Operation::TagConspiracy { tag } => {
            result == Ok::<TypedValue, StorageError>(TypedValue::RowCount(1)) && after == (Tables {
                conspiracy_tags: before.conspiracy_tags.push(tag),
                ..before
            })
        },
        Operation::InsertCategoriesForPage { categories } => {
            &&& result == Ok::<TypedValue, StorageError>(
                TypedValue::RowCount(accepted_rows(categories@).len() as usize),
            )
            &&& after.categories_to_pages == before.categories_to_pages + accepted_rows(
                categories@,
            )
            &&& after.conspiracies == before.conspiracies
            &&& after.tags == before.tags
            &&& after.conspiracy_tags == before.conspiracy_tags
            &&& after.links_processed == before.links_processed
        },
        Operation::GetConspiracies { page_number } => {
            &&& after == before
            &&& if page_number < 0 {
                result == Err::<TypedValue, StorageError>(StorageError::Validation)
            } else {
                result matches Ok(TypedValue::Conspiracies(rows)) && rows@ == page_of(
                    before.conspiracies,
                    page_number as int,
                )
            }
        },
        Operation::GetConspiracyById { page_id } => {
            &&& after == before
            &&& if has_page(before.conspiracies, page_id@) {
                result == Ok::<TypedValue, StorageError>(
                    TypedValue::Conspiracy(page_by_id(before.conspiracies, page_id@)),
                )
            } else {
                result == Err::<TypedValue, StorageError>(StorageError::NotFound)
            }
        },
        Operation::GetConspiraciesByTag { tag_id, page_number } => {
            &&& after == before
            &&& if page_number < 0 {
                result == Err::<TypedValue, StorageError>(StorageError::Validation)
            } else {
                result matches Ok(TypedValue::Conspiracies(rows)) && rows@ == page_of(
                    pages_with_tag(before.conspiracies, before.conspiracy_tags, tag_id),
                    page_number as int,
                )
            }
        },
        Operation::GetTags { page_number } => {
            &&& after == before
            &&& if page_number < 0 {
                result == Err::<TypedValue, StorageError>(StorageError::Validation)
            } else {
                result matches Ok(TypedValue::Tags(rows)) && rows@ == page_of(
                    before.tags,
                    page_number as int,
                )
            }
        },
        Operation::GetCategories { page_number } => {
            &&& after == before
            &&& if page_number < 0 {
                result == Err::<TypedValue, StorageError>(StorageError::Validation)
            } else {
                result matches Ok(TypedValue::Categories(names)) && names@ == page_of(
                    before.categories,
                    page_number as int,
                )
            }
        },
        Operation::GetLinksToProcess { limit } => {
            &&& after == before
            &&& if limit < 0 {
                result == Err::<TypedValue, StorageError>(StorageError::Validation)
            } else {
                result matches Ok(TypedValue::Links(rows)) && rows@ == pending_links(
                    before.links_processed,
                ).take(batch_len(before.links_processed, limit as int))
            }
        },
        Operation::MarkLinkProcessed { title } => {
            &&& result == Ok::<TypedValue, StorageError>(
                TypedValue::RowCount(
                    if has_link(before.links_processed, title@) {
                        1usize
                    } else {
                        0usize
                    },
                ),
            )
            &&& after == (Tables {
                links_processed: marked_links(before.links_processed, title@),
                ..before
            })
        },
    }
}

/// Runs one operation against the store, as a worker does for each operation
/// that it is handed, one at a time and in the order of arrival.
pub fn execute(conn: &mut Database, operation: Operation) -> (result: Result<
    TypedValue,
    StorageError,
>)
    requires
        old(conn).wf(),
    ensures
        final(conn).wf(),
        effect(operation, old(conn)@, final(conn)@, result),
{
    match operation {
        Operation::InsertConspiracy { conspiracy } => {
            match add_conspiracy(conn, &conspiracy) {
                Ok(count) => Ok(TypedValue::RowCount(count)),
                Err(e) => Err(e),
            }
        },
        Operation::InsertLinkProcessed { title } => {
            let link = LinkProcessed::new(title);
            match add_link_process(conn, &link) {
                Ok(count) => Ok(TypedValue::RowCount(count)),
                Err(e) => Err(e),
            }
        },
        Operation::InsertTag { new_tag } => {
            match add_tag(conn, new_tag) {
                Ok(stored) => Ok(TypedValue::Tag(stored)),
                Err(e) => Err(e),
            }
        },
        Operation::TagConspiracy { tag } => {
            match tag_conspiracy(conn, &tag) {
                Ok(count) => Ok(TypedValue::RowCount(count)),
                Err(e) => Err(e),
            }
        },
        Operation::InsertCategoriesForPage { categories } => {
            match add_categories(conn, categories) {
                Ok(count) => Ok(TypedValue::RowCount(count)),
                Err(e) => Err(e),
            }
        },
        Operation::GetConspiracies { page_number } => {
            match get_conspiracies(conn, page_number) {
                Ok(rows) => Ok(TypedValue::Conspiracies(rows)),
                Err(e) => Err(e),
            }
        },
        Operation::GetConspiracyById { page_id } => {
            match get_conspiracy_by_id(conn, page_id.as_str()) {
                Ok(row) => Ok(TypedValue::Conspiracy(row)),
                Err(e) => Err(e),
            }
        },
        Operation::GetConspiraciesByTag { tag_id, page_number } => {
            match get_conspiracies_by_tag(conn, tag_id, page_number) {
                Ok(rows) => Ok(TypedValue::Conspiracies(rows)),
                Err(e) => Err(e),
            }
        },
        Operation::GetTags { page_number } => {
            match get_tags(conn, page_number) {
                Ok(rows) => Ok(TypedValue::Tags(rows)),
                Err(e) => Err(e),
            }
        },
        Operation::GetCategories { page_number } => {
            match get_categories(conn, page_number) {
                Ok(names) => Ok(TypedValue::Categories(names)),
                Err(e) => Err(e),
            }
        },
        Operation::GetLinksToProcess { limit } => {
            match get_links_to_process(conn, limit) {
                Ok(rows) => Ok(TypedValue::Links(rows)),
                Err(e) => Err(e),
            }
        },
        Operation::MarkLinkProcessed { title } => {
            match mark_link_as_processed(conn, title.as_str()) {
                Ok(count) => Ok(TypedValue::RowCount(count)),
                Err(e) => Err(e),
            }
        },
    }
}

} // verus!
