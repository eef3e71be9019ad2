//! Activity events of the two archive eras, and the records projected from
//! them.
use crate::text::{remove_char, same_text, without_char};
use crate::timestamp::Timestamp;
use vstd::prelude::*;

verus! {

/// The id given to an actor or repository that the source leaves out.
pub fn id_not_specified() -> (r: i64)
    ensures
        r == -1,
{
    -1
}

/// The text of an optional string, or the empty text.
pub open spec fn text_or_empty(s: Option<String>) -> Seq<char> {
    match s {
        Some(t) => t@,
        None => Seq::empty(),
    }
}

fn clone_or_empty(s: &Option<String>) -> (r: String)
    ensures
        r@ == text_or_empty(*s),
{
    match s {
        Some(t) => t.clone(),
        None => String::new(),
    }
}

/// An account on the forge, as events from 2015 on describe it.
#[derive(Debug, Clone, PartialEq, PartialOrd, Ord, Eq)]
pub struct Actor {
    pub id: i64,
    pub login: Option<String>,
}

/// A repository. Its id stays the same for its whole life; its name may
/// change.
#[derive(Debug, Clone, PartialEq, PartialOrd, Ord, Eq)]
pub struct Repo {
    pub id: i64,
    pub name: String,
}

/// The pull request of an event: whether it was merged, and who opened it.
#[derive(Debug, Clone, PartialEq, PartialOrd, Ord, Eq)]
pub struct PullRequest {
    pub merged: Option<bool>,
    pub actor: Option<Actor>,
}

/// A pushed commit.
#[derive(Debug, Clone, PartialEq, PartialOrd, Ord, Eq)]
pub struct Commit {
    pub sha: Option<String>,
}

/// What an event carries besides its kind: a pull request, or pushed commits.
#[derive(Debug, Clone, PartialEq, PartialOrd, Ord, Eq)]
pub struct Payload {
    pub action: Option<String>,
    pub pull_request: Option<PullRequest>,
    pub commits: Option<Vec<Commit>>,
}

/// An archive event from 2015 on.
#[derive(Debug, Clone)]
pub struct Event {
    pub id: i64,
    pub created_at: Timestamp,
    pub event_type: String,
    pub actor: Actor,
    pub repo: Repo,
    pub payload: Option<Payload>,
}

/// A contribution: `actor` had work accepted into repository `repo_id`.
#[derive(Debug, Clone, PartialEq, PartialOrd, Ord, Eq)]
pub struct CommitEvent {
    pub actor: String,
    pub repo_id: i64,
}

/// A pull request with the repository it was opened against.
#[derive(Debug, Clone, PartialEq, PartialOrd, Ord, Eq)]
pub struct PrByActor {
    pub repo: Repo,
    pub actor: Actor,
}

/// A name that repository `repo_id` had at `event_timestamp`.
#[derive(Debug, Clone, PartialEq, PartialOrd, Ord, Eq)]
pub struct RepoIdToName {
    pub repo_id: i64,
    pub repo_name: String,
    pub event_timestamp: Timestamp,
}

impl Event {
    pub open spec fn is_pull_request_kind(self) -> bool {
        self.event_type@ == "PullRequestEvent"@
    }

    pub open spec fn is_push_kind(self) -> bool {
        self.event_type@ == "PushEvent"@
    }

    /// The merged flag of the event's pull request, where the event has one.
    pub open spec fn merged_flag(self) -> Option<bool> {
        match self.payload {
            Some(p) => match p.pull_request {
                Some(pr) => pr.merged,
                None => None,
            },
            None => None,
        }
    }

    /// The login of whoever opened the event's pull request, or the empty text.
    pub open spec fn pr_author(self) -> Seq<char> {
        match self.payload {
            Some(p) => match p.pull_request {
                Some(pr) => match pr.actor {
                    Some(a) => text_or_empty(a.login),
                    None => Seq::empty(),
                },
                None => Seq::empty(),
            },
            None => Seq::empty(),
        }
    }

    /// The number of pushed commits the event lists, where it lists them.
    pub open spec fn commit_count(self) -> Option<nat> {
        match self.payload {
            Some(p) => match p.commits {
                Some(c) => Some(c@.len()),
                None => None,
            },
            None => None,
        }
    }

    pub open spec fn accepted_pr(self) -> bool {
        self.is_pull_request_kind() && self.merged_flag() == Some(true)
    }

    pub open spec fn direct_push(self) -> bool {
        self.is_push_kind() && (self.commit_count() matches Some(n) && n > 0)
    }

    /// Who is credited: the author of a pull request, else the acting account.
    pub open spec fn contributor(self) -> Seq<char> {
        if self.is_pull_request_kind() {
            self.pr_author()
        } else {
            text_or_empty(self.actor.login)
        }
    }

    /// A placeholder event, with every id missing.
    pub fn new() -> (r: Event)
        ensures
            r.id == -1,
            r.actor.id == -1,
            r.repo.id == -1,
            r.actor.login is None,
            r.payload is None,
            r.event_type@ == "n/a"@,
            r.repo.name@ == "n/a"@,
            r.created_at == Timestamp::placeholder_spec(),
    {
        Event {
            id: -1,
            event_type: String::from_str("n/a"),
            actor: Actor { id: -1, login: None },
            repo: Repo { id: -1, name: String::from_str("n/a") },
            payload: None,
            created_at: Timestamp::placeholder(),
        }
    }

    pub fn as_repo_id_mapping(&self) -> (r: RepoIdToName)
        ensures
            r.repo_id == self.repo.id,
            r.repo_name@ == self.repo.name@,
            r.event_timestamp == self.created_at,
    {
        RepoIdToName {
            repo_id: self.repo.id,
            repo_name: self.repo.name.clone(),
            event_timestamp: self.created_at,
        }
    }

    /// The contribution the event stands for: a pull request is credited to
    /// its author, not to whoever merged it.
    pub fn as_commit_event(&self) -> (r: CommitEvent)
        ensures
            r.actor@ == self.contributor(),
            r.repo_id == self.repo.id,
    {
        let actor = if same_text(self.event_type.as_str(), "PullRequestEvent") {
            match &self.payload {
                Some(payload) => match &payload.pull_request {
                    Some(pull_request) => match &pull_request.actor {
                        Some(author) => clone_or_empty(&author.login),
                        None => String::new(),
                    },
                    None => String::new(),
                },
                None => String::new(),
            }
        } else {
            clone_or_empty(&self.actor.login)
        };
        CommitEvent { actor, repo_id: self.repo.id }
    }

    /// Whether the event lacks an id of its own, of its repository or of its
    /// actor; placeholder events do.
    pub fn is_missing_data(&self) -> (r: bool)
        ensures
            r == (self.id == -1 || self.repo.id == -1 || self.actor.id == -1),
    {
        self.id == -1 || self.repo.id == -1 || self.actor.id == -1
    }

    pub fn is_commit_event(&self) -> (r: bool)
        ensures
            r == (self.accepted_pr() || self.direct_push()),
    {
        self.is_accepted_pr() || self.is_direct_push_event()
    }

    /// A pull request event whose pull request is marked merged; an absent
    /// flag counts as not merged.
    pub fn is_accepted_pr(&self) -> (r: bool)
        ensures
            r == self.accepted_pr(),
    {
        if !same_text(self.event_type.as_str(), "PullRequestEvent") {
            return false;
        }
        match &self.payload {
            Some(payload) => match &payload.pull_request {
                Some(pr) => match pr.merged {
                    Some(merged) => merged,
                    None => false,
                },
                None => false,
            },
            None => false,
        }
    }

    /// A push event that lists at least one commit.
    pub fn is_direct_push_event(&self) -> (r: bool)
        ensures
            r == self.direct_push(),
    {
        if !same_text(self.event_type.as_str(), "PushEvent") {
            return false;
        }
        match &self.payload {
            Some(payload) => match &payload.commits {
                Some(commits) => commits.len() > 0,
                None => false,
            },
            None => false,
        }
    }
}

/// The login of an account, as some events spell it out.
#[derive(Debug, Clone)]
pub struct ActorAttributes {
    pub login: String,
}

/// The pull request of an event before 2015: only whether it was merged.
#[derive(Debug, Clone, PartialEq, PartialOrd, Ord, Eq)]
pub struct OldPullRequest {
    pub merged: Option<bool>,
}

/// What an event before 2015 carries: a commit count, or a pull request.
#[derive(Debug, Clone, PartialEq, PartialOrd, Ord, Eq)]
pub struct OldPayload {
    pub size: Option<i32>,
    pub pull_request: Option<OldPullRequest>,
}

/// The login of the acting account of an event before 2015. The source gives
/// it either as a bare JSON string or as an object with a `login` field.
#[derive(Debug, Clone)]
pub struct Pre2015Actor {
    actor: String,
}

/// Whether the JSON text of a value is that of an object, or holds one.
pub fn is_object_text(text: &str) -> (r: bool)
    ensures
        r == text@.contains('{'),
{
    let n = text.unicode_len();
    let mut i: usize = 0;
    while i < n
        invariant
            n == text@.len(),
            i <= n,
            forall|k: int| 0 <= k < i ==> text@[k] != '{',
        decreases n - i,
    {
        if text.get_char(i) == '{' {
            return true;
        }
        i = i + 1;
    }
    false
}

impl Pre2015Actor {
    pub closed spec fn login(self) -> Seq<char> {
        self.actor@
    }

    pub fn login_text(&self) -> (r: String)
        ensures
            r@ == self.login(),
    {
        self.actor.clone()
    }

    /// The actor of an object that names its login.
    pub fn from_login(login: String) -> (r: Pre2015Actor)
        ensures
            r.login() == login@,
    {
        Pre2015Actor { actor: login }
    }

    /// The actor given by the JSON text of a bare string: its quotes are not
    /// part of the login.
    pub fn from_json_scalar(text: &str) -> (r: Pre2015Actor)
        ensures
            r.login() == without_char(text@, '"'),
    {
        Pre2015Actor { actor: remove_char(text, '"') }
    }
}

/// An archive event before 2015.
#[derive(Debug, Clone)]
pub struct Pre2015Event {
    pub repository: Option<Repo>,
    pub repo: Option<Repo>,
    pub event_type: String,
    pub actor: Pre2015Actor,
    pub created_at: String,
    pub payload: Option<OldPayload>,
}

impl Pre2015Event {
    pub open spec fn is_pull_request_kind(self) -> bool {
        self.event_type@ == "PullRequestEvent"@
    }

    pub open spec fn is_push_kind(self) -> bool {
        self.event_type@ == "PushEvent"@
    }

    pub open spec fn merged_flag(self) -> Option<bool> {
        match self.payload {
            Some(p) => match p.pull_request {
                Some(pr) => pr.merged,
                None => None,
            },
            None => None,
        }
    }

    pub open spec fn size(self) -> Option<i32> {
        match self.payload {
            Some(p) => p.size,
            None => None,
        }
    }

    pub open spec fn accepted_pr(self) -> bool {
        self.is_pull_request_kind() && self.merged_flag() == Some(true)
    }

    pub open spec fn direct_push(self) -> bool {
        self.is_push_kind() && (self.size() matches Some(n) && n > 0)
    }

    /// The repository name: from `repo`, else from `repository`, else empty.
    pub open spec fn spec_repo_name(self) -> Seq<char> {
        match self.repo {
            Some(r) => r.name@,
            None => match self.repository {
                Some(r) => r.name@,
                None => Seq::empty(),
            },
        }
    }

    /// The repository id: from `repo`, else from `repository`, else -1.
    pub open spec fn spec_repo_id(self) -> i64 {
        match self.repo {
            Some(r) => r.id,
            None => match self.repository {
                Some(r) => r.id,
                None => -1i64,
            },
        }
    }

    pub fn is_commit_event(&self) -> (r: bool)
        ensures
            r == (self.accepted_pr() || self.direct_push()),
    {
        self.is_accepted_pr() || self.is_direct_push_event()
    }

    /// The contribution the event stands for, credited to its actor.
    pub fn as_commit_event(&self) -> (r: CommitEvent)
        ensures
            r.actor@ == self.actor.login(),
            r.repo_id == self.spec_repo_id(),
    {
        CommitEvent { actor: self.actor_name(), repo_id: self.repo_id() }
    }

    /// The name the repository had at `event_timestamp`, the event's time,
    /// which the caller reads from its `created_at` text.
    pub fn as_repo_id_mapping(&self, event_timestamp: Timestamp) -> (r: RepoIdToName)
        ensures
            r.repo_id == self.spec_repo_id(),
            r.repo_name@ == self.spec_repo_name(),
            r.event_timestamp == event_timestamp,
    {
        let repo_name = match &self.repo {
            Some(repo) => repo.name.clone(),
            None => match &self.repository {
                Some(repository) => repository.name.clone(),
                None => String::new(),
            },
        };
        RepoIdToName { repo_id: self.repo_id(), repo_name, event_timestamp }
    }

    pub fn actor_name(&self) -> (r: String)
        ensures
            r@ == self.actor.login(),
    {
        self.actor.actor.clone()
    }

    pub fn repo_id(&self) -> (r: i64)
        ensures
            r == self.spec_repo_id(),
    {
        match &self.repo {
            Some(repo) => repo.id,
            None => match &self.repository {
                Some(repository) => repository.id,
                None => id_not_specified(),
            },
        }
    }

    /// A pull request event that states that it was merged; one that does not
    /// say counts as not merged.
    pub fn is_accepted_pr(&self) -> (r: bool)
        ensures
            r == self.accepted_pr(),
    {
        if !same_text(self.event_type.as_str(), "PullRequestEvent") {
            return false;
        }
        match &self.payload {
            Some(payload) => match &payload.pull_request {
                Some(pr) => match pr.merged {
                    Some(merged) => merged,
                    None => false,
                },
                None => false,
            },
            None => false,
        }
    }

    /// A push event with a positive commit count.
    pub fn is_direct_push_event(&self) -> (r: bool)
        ensures
            r == self.direct_push(),
    {
        if !same_text(self.event_type.as_str(), "PushEvent") {
            return false;
        }
        match &self.payload {
            Some(payload) => match payload.size {
                Some(x) => x > 0,
                None => false,
            },
            None => false,
        }
    }
}

} // verus!
