use vstd::prelude::*;

verus! {

/// Lifecycle state of an archive build.
#[derive(Clone, Copy, Debug, PartialEq, Eq, Structural)]
pub enum TaskStatus {
    InProgress,
    Archiving,
    Complete,
    Failed,
}

/// Kind of catalog entity whose books are collected.
#[derive(Clone, Copy, Debug, PartialEq, Eq, Structural)]
pub enum ObjectType {
    Sequence,
    Author,
    Translator,
}

/// A request for an archive of every book of one catalog entity.
#[derive(Clone, Debug)]
pub struct CreateTask {
    pub object_id: u32,
    pub object_type: ObjectType,
    pub file_format: String,
    pub allowed_langs: Vec<String>,
}

/// Status record of one archive build, as pollers see it.
#[derive(Clone, Debug)]
pub struct Task {
    pub id: String,
    pub status: TaskStatus,
    pub status_description: String,
    pub error_message: Option<String>,
    pub result_filename: Option<String>,
    pub result_link: Option<String>,
    pub content_size: Option<u64>,
}

/// A book of the catalog with the file formats it can be downloaded in.
#[derive(Clone, Debug)]
pub struct Book {
    pub id: u64,
    pub available_types: Vec<String>,
}

/// One page of a paginated catalog listing.
#[derive(Clone, Debug)]
pub struct Page<T> {
    pub items: Vec<T>,
    pub total: u32,
    pub page: u32,
    pub size: u32,
    pub pages: u32,
}

/// A book sequence of the catalog.
#[derive(Clone, Debug)]
pub struct Sequence {
    pub id: u32,
    pub name: String,
}

/// An author or translator of the catalog.
#[derive(Clone, Debug)]
pub struct Author {
    pub id: u32,
    pub first_name: String,
    pub last_name: String,
    pub middle_name: Option<String>,
}

} // verus!
