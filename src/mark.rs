//! The records of the store: a mark, the tag set of a mark, and the errors of
//! store operations.

use vstd::prelude::*;

verus! {

/// What a mark holds, as mathematical values.
pub ghost struct MarkModel {
    pub id: int,
    pub name: Seq<char>,
    pub description: Seq<char>,
    pub url: Seq<char>,
    pub application: Seq<char>,
}

/// A stored bookmark: a target (`url`, a URL or a path), the application that
/// opens it (empty for the platform's default handler), and a description.
pub struct SchWiMark {
    pub id: i64,
    pub name: String,
    pub description: String,
    pub url: String,
    pub application: String,
}

impl View for SchWiMark {
    type V = MarkModel;

    open spec fn view(&self) -> MarkModel {
        MarkModel {
            id: self.id as int,
            name: self.name@,
            description: self.description@,
            url: self.url@,
            application: self.application@,
        }
    }
}

/// The texts of a sequence of strings.
pub open spec fn texts(v: Seq<String>) -> Seq<Seq<char>> {
    v.map_values(|s: String| s@)
}

impl SchWiMark {
    pub fn new(id: i64, name: String, description: String, url: String, application: String) -> (r:
        SchWiMark)
        ensures
            r@ == (MarkModel {
                id: id as int,
                name: name@,
                description: description@,
                url: url@,
                application: application@,
            }),
    {
        SchWiMark { id, name, description, url, application }
    }

    /// A copy of this mark, field by field.
    pub fn duplicate(&self) -> (r: SchWiMark)
        ensures
            r@ == self@,
    {
        SchWiMark {
            id: self.id,
            name: self.name.clone(),
            description: self.description.clone(),
            url: self.url.clone(),
            application: self.application.clone(),
        }
    }
}

/// The tags of one mark.
pub struct Tag {
    pub markid: i64,
    pub tags: Vec<String>,
}

impl Tag {
    pub fn new(markid: i64, tags: Vec<String>) -> (r: Tag)
        ensures
            r.markid == markid,
            r.tags@ == tags@,
    {
        Tag { markid, tags }
    }
}

/// One row of the tag table: a label attached to the mark `markid`.
pub struct TagRow {
    pub markid: i64,
    pub tag: String,
}

/// A mark in short form, as offered to the picker: its id, name and tags.
pub struct MarkShort {
    pub id: i64,
    pub name: String,
    pub tags: Vec<String>,
}

/// Why a store operation failed.
#[derive(Debug, Clone, Copy, PartialEq, Eq, Structural)]
pub enum StoreError {
    /// The backing file cannot be opened or created.
    StorageUnavailable,
    /// Another mark already has this name.
    DuplicateName,
    /// No mark has this id.
    NotFound,
    /// The backing store failed, or holds rows that break the store's rules.
    StorageError,
}

} // verus!
