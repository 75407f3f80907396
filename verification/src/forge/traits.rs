//! What a forge client offers, and the parameters of its requests.
use vstd::prelude::*;
use crate::error::HarmoniaError;
use crate::forge::{CiStatus, Issue, MergeRequest, User};
use crate::project::repo::RepoId;

verus! {

/// What a new merge request is created with.
#[derive(Debug, Clone, Default)]
pub struct CreateMrParams {
    pub title: String,
    pub description: String,
    pub source_branch: String,
    pub target_branch: String,
    pub draft: bool,
    pub labels: Vec<String>,
    pub reviewers: Vec<String>,
}

/// What an update of a merge request changes; `None` leaves a field as is.
#[derive(Debug, Clone, Default)]
pub struct UpdateMrParams {
    pub title: Option<String>,
    pub description: Option<String>,
    pub labels: Option<Vec<String>>,
    pub reviewers: Option<Vec<String>>,
}

/// How a merge request is merged.
#[derive(Debug, Clone, Default)]
pub struct MergeMrParams {
    pub squash: bool,
    pub delete_source_branch: bool,
}

/// What a new issue is created with.
#[derive(Debug, Clone, Default)]
pub struct CreateIssueParams {
    pub project: Option<RepoId>,
    pub title: String,
    pub description: String,
    pub labels: Vec<String>,
}

/// The operations of a forge client.
pub trait Forge {
    fn create_mr(&self, repo: &RepoId, params: CreateMrParams) -> Result<MergeRequest, HarmoniaError>;

    fn get_mr(&self, repo: &RepoId, mr_id: &String) -> Result<MergeRequest, HarmoniaError>;

    fn update_mr(&self, repo: &RepoId, mr_id: &String, params: UpdateMrParams) -> Result<
        MergeRequest,
        HarmoniaError,
    >;

    fn link_mrs(&self, mrs: &[(RepoId, String)]) -> Result<(), HarmoniaError>;

    fn merge_mr(&self, repo: &RepoId, mr_id: &String, params: MergeMrParams) -> Result<(), HarmoniaError>;

    fn close_mr(&self, repo: &RepoId, mr_id: &String) -> Result<(), HarmoniaError>;

    fn get_ci_status(&self, repo: &RepoId, ref_name: &str) -> Result<CiStatus, HarmoniaError>;

    fn create_issue(&self, params: CreateIssueParams) -> Result<Issue, HarmoniaError>;

    fn get_user(&self, username: &str) -> Result<User, HarmoniaError>;
}

} // verus!
