//! Aggregation of the listings that the issue store returns, one listing
//! per monitored directory.

use vstd::prelude::*;
use crate::config::{base_name, base_name_of};
use crate::model::{
    clone_blockers,
    clone_opt,
    directory_views,
    issue_views,
    DirectoryConfig,
    DirectoryView,
    GatewayError,
    Issue,
    IssueView,
};

verus! {

/// The name under which the issues of `dir` are stamped: its display name,
/// or the base name of its path where it has no display name.
pub open spec fn source_name_of(dir: DirectoryView) -> Seq<char> {
    if dir.display_name.len() == 0 {
        base_name_of(dir.path)
    } else {
        dir.display_name
    }
}

/// `issue` with its source directory set to `source`.
pub open spec fn stamped_one(issue: IssueView, source: Seq<char>) -> IssueView {
    IssueView {
        id: issue.id,
        title: issue.title,
        description: issue.description,
        status: issue.status,
        priority: issue.priority,
        issue_type: issue.issue_type,
        assignee: issue.assignee,
        notes: issue.notes,
        created_at: issue.created_at,
        updated_at: issue.updated_at,
        dependencies: issue.dependencies,
        source_directory: source,
    }
}

/// `issues` with every source directory set to `source`.
pub open spec fn stamped(issues: Seq<IssueView>, source: Seq<char>) -> Seq<IssueView> {
    issues.map_values(|i: IssueView| stamped_one(i, source))
}

/// The issues of a listing, or nothing where the listing failed.
pub open spec fn listed(listing: Result<Vec<Issue>, GatewayError>) -> Option<Seq<IssueView>> {
    match listing {
        Ok(issues) => Some(issue_views(issues@)),
        Err(_) => None,
    }
}

/// The outcome of each listing, in order.
pub open spec fn all_listed(listings: Seq<Result<Vec<Issue>, GatewayError>>) -> Seq<
    Option<Seq<IssueView>>,
> {
    listings.map_values(|l: Result<Vec<Issue>, GatewayError>| listed(l))
}

/// What one directory adds to the aggregate: the issues of its listing
/// under its source name, or nothing where it is hidden or its listing
/// failed.
pub open spec fn directory_issues(dir: DirectoryView, listing: Option<Seq<IssueView>>) -> Seq<
    IssueView,
> {
    if dir.visible && listing is Some {
        stamped(listing->0, source_name_of(dir))
    } else {
        Seq::empty()
    }
}

/// The listing that belongs to the `k`-th directory: a missing one counts
/// as failed.
pub open spec fn listing_at(listings: Seq<Option<Seq<IssueView>>>, k: int) -> Option<
    Seq<IssueView>,
> {
    if 0 <= k < listings.len() {
        listings[k]
    } else {
        None
    }
}

/// The issues of all visible directories, in registration order.
pub open spec fn aggregated(dirs: Seq<DirectoryView>, listings: Seq<Option<Seq<IssueView>>>) -> Seq<
    IssueView,
>
    decreases dirs.len(),
{
    if dirs.len() == 0 {
        Seq::empty()
    } else {
        aggregated(dirs.drop_last(), listings) + directory_issues(
            dirs.last(),
            listing_at(listings, dirs.len() - 1),
        )
    }
}

/// The client side of the issue store.
pub struct BdClient;

impl BdClient {
    /// The name under which the issues of `dir` are stamped.
    pub fn source_name(dir: &DirectoryConfig) -> (r: String)
        ensures
            r@ == source_name_of(dir@),
    {
        if dir.display_name.as_str().is_empty() {
            base_name(dir.path.as_str())
        } else {
            dir.display_name.clone()
        }
    }

    /// Copies `issues`, setting every source directory to `source_directory`.
    pub fn stamp_source(issues: &Vec<Issue>, source_directory: &str) -> (r: Vec<Issue>)
        ensures
            issue_views(r@) == stamped(issue_views(issues@), source_directory@),
    {
        let mut out: Vec<Issue> = Vec::new();
        let mut i: usize = 0;
        while i < issues.len()
            invariant
                i <= issues@.len(),
                out@.len() == i,
                forall|j: int|
                    0 <= j < i ==> out@[j]@ == stamped_one(issues@[j]@, source_directory@),
            decreases issues@.len() - i,
        {
            let issue = &issues[i];
            out.push(
                Issue {
                    id: issue.id.clone(),
                    title: issue.title.clone(),
                    description: issue.description.clone(),
                    status: issue.status.clone(),
                    priority: issue.priority,
                    issue_type: issue.issue_type.clone(),
                    assignee: clone_opt(&issue.assignee),
                    notes: clone_opt(&issue.notes),
                    created_at: issue.created_at.clone(),
                    updated_at: issue.updated_at.clone(),
                    dependencies: clone_blockers(&issue.dependencies),
                    source_directory: String::from_str(source_directory),
                },
            );
            i += 1;
        }
        assert(issue_views(out@) =~= stamped(issue_views(issues@), source_directory@));
        out
    }

    /// Takes in the listing of one location: its issues are stamped with
    /// `source_directory`, a failure is handed on.
    pub fn list_issues(listing: Result<Vec<Issue>, GatewayError>, source_directory: &str) -> (r:
        Result<Vec<Issue>, GatewayError>)
        ensures
            match listing {
                Ok(issues) => r is Ok && issue_views(r->Ok_0@) == stamped(
                    issue_views(issues@),
                    source_directory@,
                ),
                Err(_) => r == listing,
            },
    {
        match listing {
            Ok(issues) => Ok(Self::stamp_source(&issues, source_directory)),
            Err(e) => Err(e),
        }
    }

    /// Aggregates the listings of all directories, `listings[k]` being the
    /// store's answer for `directories[k]`. Hidden directories and failed
    /// or missing listings add nothing; the others add their issues, under
    /// the directory's source name, in registration order.
    pub fn list_issues_from_all(
        directories: &Vec<DirectoryConfig>,
        listings: &Vec<Result<Vec<Issue>, GatewayError>>,
    ) -> (r: Vec<Issue>)
        ensures
            issue_views(r@) == aggregated(directory_views(directories@), all_listed(listings@)),
    {
        let ghost dirs = directory_views(directories@);
        let ghost answers = all_listed(listings@);
        let mut all_issues: Vec<Issue> = Vec::new();
        let mut k: usize = 0;
        while k < directories.len()
            invariant
                k <= directories@.len(),
                dirs == directory_views(directories@),
                answers == all_listed(listings@),
                issue_views(all_issues@) == aggregated(dirs.take(k as int), answers),
            decreases directories@.len() - k,
        {
            let dir_config = &directories[k];
            let ghost before = issue_views(all_issues@);
            proof {
                assert(dirs.take(k + 1).drop_last() =~= dirs.take(k as int));
                assert(dirs.take(k + 1).last() == dir_config@);
            }
            if dir_config.visible && k < listings.len() {
                match &listings[k] {
                    Ok(issues) => {
                        let source_name = Self::source_name(dir_config);
                        let mut found = Self::stamp_source(issues, source_name.as_str());
                        let ghost added = issue_views(found@);
                        all_issues.append(&mut found);
                        assert(issue_views(all_issues@) =~= before + added);
                    },
                    Err(_) => {
                        assert(before + Seq::<IssueView>::empty() =~= before);
                    },
                }
            } else {
                assert(before + Seq::<IssueView>::empty() =~= before);
            }
            k += 1;
        }
        assert(dirs.take(directories@.len() as int) =~= dirs);
        all_issues
    }
}

} // verus!
