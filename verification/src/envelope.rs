//! The two shapes in which the Clarify API returns collections.

use vstd::prelude::*;
use crate::json::Json;

verus! {

/// The envelope of record and list-row pages: how many records there are in all, and no links.
#[derive(Debug)]
pub struct ResourcesEnvelope {
    pub data: Vec<Json>,
    pub meta: ResourcesMeta,
}

/// What a page of resources says of the whole.
#[derive(Debug)]
pub struct ResourcesMeta {
    pub total_records: Option<u64>,
}

/// The envelope of lists, users, workflows, activities and schemas: one page and the link to the
/// next.
#[derive(Debug)]
pub struct LinkedEnvelope {
    pub data: Vec<Json>,
    pub links: Links,
}

/// Where the next page is.
#[derive(Debug)]
pub struct Links {
    pub next: Option<String>,
}

} // verus!
