//! The record model: issues, blocker references, monitored directories,
//! gateway failures and the fixed set of columns.

use vstd::prelude::*;

verus! {

/// The character sequence of an optional string.
pub open spec fn opt_view(s: Option<String>) -> Option<Seq<char>> {
    match s {
        Some(t) => Some(t@),
        None => None,
    }
}

/// Copies an optional string.
pub fn clone_opt(s: &Option<String>) -> (r: Option<String>)
    ensures
        opt_view(r) == opt_view(*s),
{
    match s {
        Some(t) => Some(t.clone()),
        None => None,
    }
}

/// A lightweight reference to a blocking issue.
#[derive(Debug, PartialEq, Eq)]
pub struct BlockerRef {
    pub id: String,
    pub title: String,
    pub status: String,
}

/// Mathematical value of a [`BlockerRef`].
pub struct BlockerView {
    pub id: Seq<char>,
    pub title: Seq<char>,
    pub status: Seq<char>,
}

impl View for BlockerRef {
    type V = BlockerView;

    open spec fn view(&self) -> BlockerView {
        BlockerView { id: self.id@, title: self.title@, status: self.status@ }
    }
}

impl Clone for BlockerRef {
    fn clone(&self) -> (r: Self)
        ensures
            r@ == self@,
    {
        BlockerRef { id: self.id.clone(), title: self.title.clone(), status: self.status.clone() }
    }
}

/// The values of a sequence of blocker references.
pub open spec fn blocker_views(v: Seq<BlockerRef>) -> Seq<BlockerView> {
    v.map_values(|b: BlockerRef| b@)
}

/// Copies a list of blocker references.
pub fn clone_blockers(v: &Vec<BlockerRef>) -> (r: Vec<BlockerRef>)
    ensures
        blocker_views(r@) == blocker_views(v@),
{
    let mut out: Vec<BlockerRef> = Vec::new();
    let mut i: usize = 0;
    while i < v.len()
        invariant
            i <= v.len(),
            out@.len() == i,
            forall|j: int| 0 <= j < i ==> out@[j]@ == v@[j]@,
        decreases v.len() - i,
    {
        out.push(v[i].clone());
        i += 1;
    }
    assert(blocker_views(out@) =~= blocker_views(v@));
    out
}

/// A trackable unit of work.
#[derive(Debug, PartialEq, Eq)]
pub struct Issue {
    pub id: String,
    pub title: String,
    pub description: String,
    pub status: String,
    pub priority: i32,
    pub issue_type: String,
    pub assignee: Option<String>,
    pub notes: Option<String>,
    pub created_at: String,
    pub updated_at: String,
    pub dependencies: Vec<BlockerRef>,
    pub source_directory: String,
}

/// Mathematical value of an [`Issue`].
pub struct IssueView {
    pub id: Seq<char>,
    pub title: Seq<char>,
    pub description: Seq<char>,
    pub status: Seq<char>,
    pub priority: int,
    pub issue_type: Seq<char>,
    pub assignee: Option<Seq<char>>,
    pub notes: Option<Seq<char>>,
    pub created_at: Seq<char>,
    pub updated_at: Seq<char>,
    pub dependencies: Seq<BlockerView>,
    pub source_directory: Seq<char>,
}

impl View for Issue {
    type V = IssueView;

    open spec fn view(&self) -> IssueView {
        IssueView {
            id: self.id@,
            title: self.title@,
            description: self.description@,
            status: self.status@,
            priority: self.priority as int,
            issue_type: self.issue_type@,
            assignee: opt_view(self.assignee),
            notes: opt_view(self.notes),
            created_at: self.created_at@,
            updated_at: self.updated_at@,
            dependencies: blocker_views(self.dependencies@),
            source_directory: self.source_directory@,
        }
    }
}

impl Clone for Issue {
    fn clone(&self) -> (r: Self)
        ensures
            r@ == self@,
    {
        Issue {
            id: self.id.clone(),
            title: self.title.clone(),
            description: self.description.clone(),
            status: self.status.clone(),
            priority: self.priority,
            issue_type: self.issue_type.clone(),
            assignee: clone_opt(&self.assignee),
            notes: clone_opt(&self.notes),
            created_at: self.created_at.clone(),
            updated_at: self.updated_at.clone(),
            dependencies: clone_blockers(&self.dependencies),
            source_directory: self.source_directory.clone(),
        }
    }
}

/// The values of a sequence of issues.
pub open spec fn issue_views(v: Seq<Issue>) -> Seq<IssueView> {
    v.map_values(|i: Issue| i@)
}

/// Copies a list of issues.
pub fn clone_issues(v: &Vec<Issue>) -> (r: Vec<Issue>)
    ensures
        issue_views(r@) == issue_views(v@),
{
    let mut out: Vec<Issue> = Vec::new();
    let mut i: usize = 0;
    while i < v.len()
        invariant
            i <= v.len(),
            out@.len() == i,
            forall|j: int| 0 <= j < i ==> out@[j]@ == v@[j]@,
        decreases v.len() - i,
    {
        out.push(v[i].clone());
        i += 1;
    }
    assert(issue_views(out@) =~= issue_views(v@));
    out
}

/// One monitored source location.
#[derive(Debug, PartialEq, Eq)]
pub struct DirectoryConfig {
    pub path: String,
    pub visible: bool,
    pub display_name: String,
}

/// Mathematical value of a [`DirectoryConfig`].
pub struct DirectoryView {
    pub path: Seq<char>,
    pub visible: bool,
    pub display_name: Seq<char>,
}

impl View for DirectoryConfig {
    type V = DirectoryView;

    open spec fn view(&self) -> DirectoryView {
        DirectoryView { path: self.path@, visible: self.visible, display_name: self.display_name@ }
    }
}

impl Clone for DirectoryConfig {
    fn clone(&self) -> (r: Self)
        ensures
            r@ == self@,
    {
        DirectoryConfig {
            path: self.path.clone(),
            visible: self.visible,
            display_name: self.display_name.clone(),
        }
    }
}

/// The values of a sequence of directories.
pub open spec fn directory_views(v: Seq<DirectoryConfig>) -> Seq<DirectoryView> {
    v.map_values(|d: DirectoryConfig| d@)
}

/// Why a gateway operation failed.
#[derive(Debug, PartialEq, Eq)]
pub enum GatewayError {
    /// The external process could not be started; holds the system's reason.
    Unavailable(String),
    /// The process ran and reported failure; holds its diagnostic text.
    Rejected(String),
    /// The output could not be read as the expected records; holds the reason.
    Malformed(String),
}

impl GatewayError {
    /// The text shown for this failure.
    pub open spec fn message_text(self) -> Seq<char> {
        match self {
            GatewayError::Unavailable(d) => "Failed to execute bd: "@ + d@,
            GatewayError::Rejected(d) => d@,
            GatewayError::Malformed(d) => "Failed to parse JSON: "@ + d@,
        }
    }

    /// Renders the failure as text.
    pub fn message(&self) -> (r: String)
        ensures
            r@ == self.message_text(),
    {
        match self {
            GatewayError::Unavailable(d) => String::from_str("Failed to execute bd: ").concat(
                d.as_str(),
            ),
            GatewayError::Rejected(d) => d.clone(),
            GatewayError::Malformed(d) => String::from_str("Failed to parse JSON: ").concat(
                d.as_str(),
            ),
        }
    }
}

impl Clone for GatewayError {
    fn clone(&self) -> (r: Self)
        ensures
            r.message_text() == self.message_text(),
            r is Unavailable == self is Unavailable,
            r is Rejected == self is Rejected,
            r is Malformed == self is Malformed,
    {
        match self {
            GatewayError::Unavailable(d) => GatewayError::Unavailable(d.clone()),
            GatewayError::Rejected(d) => GatewayError::Rejected(d.clone()),
            GatewayError::Malformed(d) => GatewayError::Malformed(d.clone()),
        }
    }
}

/// The columns by which issues are shown, filtered and sorted.
#[derive(Clone, Copy, Debug, PartialEq, Eq, Hash, Structural)]
pub enum SortColumn {
    Id,
    Directory,
    Title,
    Status,
    Priority,
    Type,
    Assignee,
    Blockers,
    Dependents,
}

} // verus!
