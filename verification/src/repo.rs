//! The plain records of the relational storage backend.
//!
//! The backend itself is an external collaborator; these are the row
//! shapes it stores and returns, with dates kept as text.

use vstd::prelude::*;

verus! {

/// One stored blog row.
#[derive(Debug)]
pub struct Blog {
    pub id: String,
    pub title: String,
    pub publish_date: String,
    pub excerpt: String,
    pub html: String,
    pub slug: String,
}

/// One stored layout row.
#[derive(Debug)]
pub struct Layout {
    pub id: String,
    pub html: String,
}

} // verus!
