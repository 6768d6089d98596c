//! The rows of the persisted tables.

use vstd::prelude::*;

verus! {

/// A crawled content page, keyed by `page_id`.
#[derive(Debug, PartialEq, Eq)]
pub struct Conspiracy {
    pub page_id: String,
    pub title: String,
    pub content: String,
}

/// A label that users attach to pages.
#[derive(Debug, PartialEq, Eq)]
pub struct Tag {
    pub id: i32,
    pub name: String,
}

/// A tag that has not been stored yet and so has no id.
#[derive(Debug, PartialEq, Eq)]
pub struct NewTag {
    pub name: String,
}

/// One page/tag link.
#[derive(Debug, PartialEq, Eq)]
pub struct ConspiracyTag {
    pub conspiracy_id: String,
    pub tag_id: i32,
}

/// One page/category link.
#[derive(Debug, PartialEq, Eq)]
pub struct CategoryToPage {
    pub page_id: String,
    pub category: String,
}

/// A discovered link and whether it has been ingested.
#[derive(Debug, PartialEq, Eq)]
pub struct LinkProcessed {
    pub title: String,
    pub processed: bool,
}

impl Clone for Conspiracy {
    fn clone(&self) -> (copy: Self)
        ensures
            copy == *self,
    {
        Conspiracy {
            page_id: self.page_id.clone(),
            title: self.title.clone(),
            content: self.content.clone(),
        }
    }
}

impl Clone for Tag {
    fn clone(&self) -> (copy: Self)
        ensures
            copy == *self,
    {
        Tag { id: self.id, name: self.name.clone() }
    }
}

impl Clone for NewTag {
    fn clone(&self) -> (copy: Self)
        ensures
            copy == *self,
    {
        NewTag { name: self.name.clone() }
    }
}

impl Clone for ConspiracyTag {
    fn clone(&self) -> (copy: Self)
        ensures
            copy == *self,
    {
        ConspiracyTag { conspiracy_id: self.conspiracy_id.clone(), tag_id: self.tag_id }
    }
}

impl Clone for CategoryToPage {
    fn clone(&self) -> (copy: Self)
        ensures
            copy == *self,
    {
        CategoryToPage { page_id: self.page_id.clone(), category: self.category.clone() }
    }
}

impl Clone for LinkProcessed {
    fn clone(&self) -> (copy: Self)
        ensures
            copy == *self,
    {
        LinkProcessed { title: self.title.clone(), processed: self.processed }
    }
}

impl LinkProcessed {
    /// A freshly discovered link: not processed yet.
    pub fn new(title: String) -> (link: Self)
        ensures
            link.title == title,
            !link.processed,
    {
        LinkProcessed { title, processed: false }
    }
}

impl CategoryToPage {
    /// Whether the store accepts this row: both of its fields are present.
    pub open spec fn acceptable(&self) -> bool {
        self.category@.len() > 0 && self.page_id@.len() > 0
    }

    /// Whether the store accepts this row.
    pub fn is_acceptable(&self) -> (ok: bool)
        ensures
            ok == self.acceptable(),
    {
        !self.category.as_str().is_empty() && !self.page_id.as_str().is_empty()
    }
}

} // verus!
