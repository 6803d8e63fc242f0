//! Rows of the pull-request tables, and how they are made from what the
//! GitHub API returns.

use vstd::prelude::*;

use crate::github::{PullRequest, Review};

verus! {

/// One row of `pull_requests`.
pub struct PullRequestRow {
    pub repo: String,
    pub pr_number: i64,
    pub title: String,
    pub author: String,
    pub state: String,
    pub draft: bool,
    pub created_at: String,
    pub updated_at: String,
    pub merged_at: Option<String>,
    pub closed_at: Option<String>,
    pub merged: bool,
    pub additions: Option<i64>,
    pub deletions: Option<i64>,
    pub changed_files: Option<i64>,
    pub base_ref: Option<String>,
    pub head_ref: Option<String>,
}

/// One row of `pr_reviews`.
pub struct ReviewRow {
    pub repo: String,
    pub pr_number: i64,
    pub review_id: i64,
    pub reviewer: String,
    pub state: String,
    pub submitted_at: String,
}

/// One row of `pr_reviewers_requested`.
pub struct RequestedReviewerRow {
    pub repo: String,
    pub pr_number: i64,
    pub reviewer: String,
    pub reviewer_type: String,
}

/// `b`, or `false` where the API left it out.
pub open spec fn flag_or_false(b: Option<bool>) -> bool {
    match b {
        Some(v) => v,
        None => false,
    }
}

/// The row stored for the pull request `detail` of repository `repo`: every
/// field taken over, the author from the user's login, an absent draft or
/// merged flag read as false, and both branch names present.
pub open spec fn is_pull_request_row(row: PullRequestRow, repo: Seq<char>, detail: PullRequest) -> bool {
    &&& row.repo@ == repo
    &&& row.pr_number == detail.number
    &&& row.title == detail.title
    &&& row.author == detail.user.login
    &&& row.state == detail.state
    &&& row.draft == flag_or_false(detail.draft)
    &&& row.created_at == detail.created_at
    &&& row.updated_at == detail.updated_at
    &&& row.merged_at == detail.merged_at
    &&& row.closed_at == detail.closed_at
    &&& row.merged == flag_or_false(detail.merged)
    &&& row.additions == detail.additions
    &&& row.deletions == detail.deletions
    &&& row.changed_files == detail.changed_files
    &&& row.base_ref == Some(detail.base.ref_name)
    &&& row.head_ref == Some(detail.head.ref_name)
}

/// Makes the row for a fetched pull request.
pub fn pull_request_row(repo: &str, detail: PullRequest) -> (row: PullRequestRow)
    ensures
        is_pull_request_row(row, repo@, detail),
{
    let draft = match detail.draft {
        Some(v) => v,
        None => false,
    };
    let merged = match detail.merged {
        Some(v) => v,
        None => false,
    };
    PullRequestRow {
        repo: repo.to_owned(),
        pr_number: detail.number,
        title: detail.title,
        author: detail.user.login,
        state: detail.state,
        draft,
        created_at: detail.created_at,
        updated_at: detail.updated_at,
        merged_at: detail.merged_at,
        closed_at: detail.closed_at,
        merged,
        additions: detail.additions,
        deletions: detail.deletions,
        changed_files: detail.changed_files,
        base_ref: Some(detail.base.ref_name),
        head_ref: Some(detail.head.ref_name),
    }
}

/// Makes the row for a review of pull request `pr_number`; a review without
/// a user or without a submission time gives none.
pub fn review_row(repo: &str, pr_number: i64, review: &Review) -> (r: Option<ReviewRow>)
    ensures
        r is Some <==> (review.user is Some && review.submitted_at is Some),
        r matches Some(row) ==> {
            &&& row.repo@ == repo@
            &&& row.pr_number == pr_number
            &&& row.review_id == review.id
            &&& row.reviewer@ == review.user->0.login@
            &&& row.state@ == review.state@
            &&& row.submitted_at@ == review.submitted_at->0@
        },
{
    match (&review.user, &review.submitted_at) {
        (Some(user), Some(submitted_at)) => Some(
            ReviewRow {
                repo: repo.to_owned(),
                pr_number,
                review_id: review.id,
                reviewer: user.login.clone(),
                state: review.state.clone(),
                submitted_at: submitted_at.clone(),
            },
        ),
        _ => None,
    }
}

/// A listed pull request is fetched again unless the database holds it with
/// the same update time.
pub fn needs_fetch(stored_updated_at: Option<&str>, updated_at: &str) -> (r: bool)
    ensures
        r == !(stored_updated_at matches Some(s) && s@ == updated_at@),
{
    match stored_updated_at {
        Some(s) => !crate::text::same_text(s, updated_at),
        None => true,
    }
}

/// The stored row of a fetched pull request holds the response's own
/// fields, each in the column of the same name: its number, title, state,
/// creation and update times, merge and close times, line and file counts;
/// the author is the user's login; an absent draft or merged flag is
/// stored as false; the branch names are both present.
pub proof fn law_pull_request_row_fields(row: PullRequestRow, repo: Seq<char>, detail: PullRequest)
    requires
        is_pull_request_row(row, repo, detail),
    ensures
        row.repo@ == repo,
        row.pr_number == detail.number,
        row.title@ == detail.title@,
        row.author@ == detail.user.login@,
        row.state@ == detail.state@,
        row.draft == (detail.draft == Some(true)),
        row.created_at@ == detail.created_at@,
        row.updated_at@ == detail.updated_at@,
        row.merged_at == detail.merged_at,
        row.closed_at == detail.closed_at,
        row.merged == (detail.merged == Some(true)),
        row.additions == detail.additions,
        row.deletions == detail.deletions,
        row.changed_files == detail.changed_files,
        row.base_ref == Some(detail.base.ref_name),
        row.head_ref == Some(detail.head.ref_name),
{
}

} // verus!
