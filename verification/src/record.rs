//! The repository record and the account that owns it.

use vstd::prelude::*;
use crate::recency::{parse_rfc3339, rfc3339_instant};

verus! {

/// The account a repository belongs to.
#[derive(Debug, Clone, PartialEq, Eq)]
pub struct Owner {
    pub login: String,
    pub id: u64,
    pub avatar_url: String,
    pub html_url: String,
    pub user_view_type: String,
}

/// One repository's metadata, exactly as its data file supplied it.
///
/// The three timestamps are kept as raw text; `updated_at` is only read as a
/// date and time when records are ordered.
#[derive(Debug, Clone, PartialEq, Eq)]
pub struct Repository {
    pub id: u64,
    pub name: String,
    pub full_name: String,
    pub owner: Owner,
    pub html_url: String,
    pub description: Option<String>,
    pub fork: bool,
    pub created_at: String,
    pub updated_at: String,
    pub pushed_at: String,
    pub stargazers_count: u64,
    pub watchers_count: u64,
    pub has_discussions: bool,
    pub forks_count: u64,
    pub allow_forking: bool,
    pub is_template: bool,
    pub web_commit_signoff_required: bool,
    pub topics: Vec<String>,
    pub visibility: String,
    pub forks: u64,
    pub watchers: u64,
    pub score: u64,
    pub subscribers_count: u64,
}

/// The instant by which a record is ranked: its `updated_at` text read as an
/// RFC 3339 date and time in UTC, or `None` where the text is no such date.
pub open spec fn recency_key(repo: Repository) -> Option<(i64, u32)> {
    rfc3339_instant(repo.updated_at@)
}

impl Repository {
    /// Reads `updated_at` as an instant in UTC: whole seconds since the Unix
    /// epoch and the nanoseconds within that second.
    pub fn parse_updated_at(&self) -> (instant: Option<(i64, u32)>)
        ensures
            instant == recency_key(*self),
    {
        parse_rfc3339(self.updated_at.as_str())
    }
}

} // verus!
