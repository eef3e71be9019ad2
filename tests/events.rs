use rusty_von_humboldt::timestamp::Timestamp;
use rusty_von_humboldt::types::{
    id_not_specified, Actor, Commit, Event, OldPayload, OldPullRequest, Payload, Pre2015Actor,
    Pre2015Event, PullRequest, Repo,
};
use serde_json::Value;

fn text_of(v: Option<&Value>) -> Option<String> {
    v.and_then(Value::as_str).map(String::from)
}

fn actor_of(v: &Value) -> Actor {
    Actor {
        id: v.get("id").and_then(Value::as_i64).unwrap_or(-1),
        login: text_of(v.get("login")),
    }
}

fn event_from_json(text: &str) -> Event {
    let v: Value = match serde_json::from_str(text) {
        Ok(v) => v,
        Err(err) => panic!("Found a weird line of json, got this error: {:?}.", err),
    };
    let payload = v.get("payload").map(|p| Payload {
        action: text_of(p.get("action")),
        pull_request: p.get("pull_request").map(|pr| PullRequest {
            merged: pr.get("merged").and_then(Value::as_bool),
            actor: pr.get("user").map(actor_of),
        }),
        commits: p.get("commits").and_then(Value::as_array).map(|cs| {
            cs.iter().map(|c| Commit { sha: text_of(c.get("sha")) }).collect()
        }),
    });
    let created = chrono::DateTime::parse_from_rfc3339(v["created_at"].as_str().unwrap())
        .unwrap()
        .timestamp();
    Event {
        id: v["id"].as_str().unwrap().parse().unwrap(),
        created_at: Timestamp::from_unix_seconds(created).unwrap(),
        event_type: v["type"].as_str().unwrap().to_string(),
        actor: actor_of(&v["actor"]),
        repo: Repo {
            id: v["repo"]["id"].as_i64().unwrap_or(-1),
            name: v["repo"]["name"].as_str().unwrap().to_string(),
        },
        payload,
    }
}

// Direct push to the repo counts as a commit
#[test]
fn direct_push_committer_gets_counted() {
    let commit_text = r#"
        {
  "id": "5785865382",
  "type": "PushEvent",
  "actor": {
    "id": 1234,
    "login": "direct_committer",
    "display_login": "direct_committer",
    "url": "https://api.github.com/users/direct_committer"
    },
  "repo": {
    "id": 255,
    "name": "foo/bar",
    "url": "https://api.github.com/repos/foo/bar"
  },
  "payload": {
    "push_id": 1234567,
    "size": 1,
    "distinct_size": 1
  },
  "created_at": "2017-05-01T07:00:00Z"
}
"#;
    let event = event_from_json(commit_text);
    let commit_event = event.as_commit_event();

    assert_eq!("direct_committer", commit_event.actor);
    assert_eq!(255, commit_event.repo_id);
}

// Ensure we count the person who made the PR as a committer, not the person who accepted it:
#[test]
fn pull_request_committer_gets_counted() {
    let pr_text = r#"{
  "id": "12345",
  "type": "PullRequestEvent",
  "actor": {
    "id": 1,
    "login": "owner-login",
    "display_login": "owner-login"
    },
    "repo": {
"id": 155,
"name": "foo/reponame",
"url": "https://api.github.com/repos/foo/reponame"
},
"payload": {
"action": "closed",
"pull_request": {
"state": "closed",
"user": {
"id": 5,
"login": "committer-login"
},
"created_at": "2017-04-30T13:14:51Z",
"updated_at": "2017-05-01T07:01:53Z",
"closed_at": "2017-05-01T07:01:53Z",
"merged_at": "2017-05-01T07:01:53Z",
"head": {
"repo": {
"id": 155,
"name": "reponame"
}
},
"base": {
"label": "foo:master",
"ref": "master",
"sha": "a829c2e22381a1ff55824602127b9a7e440d7dc5",
"repo": {
"id": 1234,
"name": "reponame",
"full_name": "foo/reponame",
"created_at": "2014-12-03T22:47:01Z",
"updated_at": "2017-04-27T09:13:53Z",
"pushed_at": "2017-05-01T07:01:53Z"
}
},
"merged": true
}
},
"public": true,
"created_at": "2017-05-01T07:01:53Z"
}"#;
    let event = event_from_json(pr_text);
    let commit_event = event.as_commit_event();

    assert_eq!("committer-login", commit_event.actor);
    assert_eq!(155, commit_event.repo_id);
    assert!(event.is_accepted_pr());
    assert!(event.is_commit_event());
}

fn current_event(kind: &str, actor: &str, repo_id: i64, payload: Option<Payload>) -> Event {
    Event {
        id: 1,
        created_at: Timestamp::from_unix_seconds(1_500_000_000).unwrap(),
        event_type: kind.to_string(),
        actor: Actor { id: 7, login: Some(actor.to_string()) },
        repo: Repo { id: repo_id, name: "foo/bar".to_string() },
        payload,
    }
}

fn push_payload(commits: usize) -> Option<Payload> {
    Some(Payload {
        action: None,
        pull_request: None,
        commits: Some((0..commits).map(|_| Commit { sha: None }).collect()),
    })
}

fn pr_payload(merged: Option<bool>, author: &str) -> Option<Payload> {
    Some(Payload {
        action: Some("closed".to_string()),
        pull_request: Some(PullRequest {
            merged,
            actor: Some(Actor { id: 9, login: Some(author.to_string()) }),
        }),
        commits: None,
    })
}

#[test]
fn push_without_commits_is_not_a_direct_push() {
    let empty = current_event("PushEvent", "alice", 1, push_payload(0));
    assert!(!empty.is_direct_push_event());
    assert!(!empty.is_commit_event());
    let missing = current_event("PushEvent", "alice", 1, None);
    assert!(!missing.is_direct_push_event());
    let one = current_event("PushEvent", "alice", 1, push_payload(1));
    assert!(one.is_direct_push_event());
    assert!(one.is_commit_event());
}

#[test]
fn unmerged_pull_request_is_not_accepted() {
    let absent = current_event("PullRequestEvent", "owner", 1, pr_payload(None, "author"));
    assert!(!absent.is_accepted_pr());
    let refused = current_event("PullRequestEvent", "owner", 1, pr_payload(Some(false), "author"));
    assert!(!refused.is_accepted_pr());
    assert!(!refused.is_commit_event());
    let merged = current_event("PullRequestEvent", "owner", 1, pr_payload(Some(true), "author"));
    assert!(merged.is_accepted_pr());
    // a push-like payload on another kind counts for nothing
    let other = current_event("WatchEvent", "alice", 1, push_payload(3));
    assert!(!other.is_commit_event());
}

#[test]
fn merged_pull_request_credits_its_author() {
    let merged = current_event("PullRequestEvent", "merger", 4, pr_payload(Some(true), "author"));
    let c = merged.as_commit_event();
    assert_eq!("author", c.actor);
    assert_eq!(4, c.repo_id);
    let no_author = current_event("PullRequestEvent", "merger", 4, None);
    assert_eq!("", no_author.as_commit_event().actor);
}

#[test]
fn placeholder_event_is_missing_data() {
    let e = Event::new();
    assert!(e.is_missing_data());
    assert_eq!(-1, e.repo.id);
    assert_eq!("n/a", e.event_type);
    assert!(!current_event("PushEvent", "a", 3, None).is_missing_data());
    assert_eq!(-1, id_not_specified());
}

#[test]
fn repo_mapping_projection_keeps_id_name_and_time() {
    let e = current_event("PushEvent", "a", 77, None);
    let m = e.as_repo_id_mapping();
    assert_eq!(77, m.repo_id);
    assert_eq!("foo/bar", m.repo_name);
    assert_eq!(1_500_000_000, m.event_timestamp.unix_seconds());
}

fn old_event(kind: &str, payload: Option<OldPayload>, repo: Option<Repo>, repository: Option<Repo>) -> Pre2015Event {
    Pre2015Event {
        repository,
        repo,
        event_type: kind.to_string(),
        actor: Pre2015Actor::from_json_scalar("\"old-timer\""),
        created_at: "2013-01-01T12:00:24-08:00".to_string(),
        payload,
    }
}

#[test]
fn legacy_events_classify_and_project() {
    let push = old_event(
        "PushEvent",
        Some(OldPayload { size: Some(2), pull_request: None }),
        None,
        Some(Repo { id: 12, name: "x/y".to_string() }),
    );
    assert!(push.is_direct_push_event());
    assert!(push.is_commit_event());
    assert_eq!("old-timer", push.actor_name());
    assert_eq!(12, push.repo_id());
    let c = push.as_commit_event();
    assert_eq!("old-timer", c.actor);
    assert_eq!(12, c.repo_id);

    let empty_push = old_event("PushEvent", Some(OldPayload { size: Some(0), pull_request: None }), None, None);
    assert!(!empty_push.is_direct_push_event());
    assert_eq!(-1, empty_push.repo_id());

    let pr = old_event(
        "PullRequestEvent",
        Some(OldPayload { size: None, pull_request: Some(OldPullRequest { merged: Some(true) }) }),
        Some(Repo { id: 3, name: "a/b".to_string() }),
        Some(Repo { id: 4, name: "a/c".to_string() }),
    );
    assert!(pr.is_accepted_pr());
    assert_eq!(3, pr.repo_id());
    let unknown = old_event(
        "PullRequestEvent",
        Some(OldPayload { size: None, pull_request: Some(OldPullRequest { merged: None }) }),
        None,
        None,
    );
    assert!(!unknown.is_accepted_pr());
}

#[test]
fn legacy_actor_text_loses_its_quotes() {
    assert_eq!("someone", Pre2015Actor::from_json_scalar("\"someone\"").login_text());
    assert_eq!("someone", Pre2015Actor::from_login("someone".to_string()).login_text());
    assert!(rusty_von_humboldt::types::is_object_text("{\"login\":\"x\"}"));
    assert!(!rusty_von_humboldt::types::is_object_text("\"x\""));
}
