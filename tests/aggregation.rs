use rusty_von_humboldt::compact::compact;
use rusty_von_humboldt::engine::Accumulator;
use rusty_von_humboldt::pipeline::{
    accept_commit_event, accept_mapping_event, contribution_of, legacy_mapping_of, mapping_of,
};
use rusty_von_humboldt::timestamp::Timestamp;
use rusty_von_humboldt::types::{
    Actor, Commit, CommitEvent, Event, Payload, Pre2015Actor, Pre2015Event, PullRequest, Repo,
    RepoIdToName,
};

fn ts(secs: i64) -> Timestamp {
    Timestamp::from_unix_seconds(secs).unwrap()
}

fn mapping(repo_id: i64, name: &str, secs: i64) -> RepoIdToName {
    RepoIdToName { repo_id, repo_name: name.to_string(), event_timestamp: ts(secs) }
}

fn commit(actor: &str, repo_id: i64) -> CommitEvent {
    CommitEvent { actor: actor.to_string(), repo_id }
}

fn push(actor: &str, repo_id: i64) -> Event {
    Event {
        id: 10,
        created_at: ts(1_400_000_000),
        event_type: "PushEvent".to_string(),
        actor: Actor { id: 1, login: Some(actor.to_string()) },
        repo: Repo { id: repo_id, name: format!("r/{}", repo_id) },
        payload: Some(Payload { action: None, pull_request: None, commits: Some(vec![Commit { sha: None }]) }),
    }
}

fn merged_pr(merger: &str, author: &str, repo_id: i64) -> Event {
    Event {
        id: 11,
        created_at: ts(1_400_000_100),
        event_type: "PullRequestEvent".to_string(),
        actor: Actor { id: 2, login: Some(merger.to_string()) },
        repo: Repo { id: repo_id, name: format!("r/{}", repo_id) },
        payload: Some(Payload {
            action: Some("closed".to_string()),
            pull_request: Some(PullRequest {
                merged: Some(true),
                actor: Some(Actor { id: 3, login: Some(author.to_string()) }),
            }),
            commits: None,
        }),
    }
}

#[test]
fn compacting_twice_changes_nothing() {
    let mut commits = vec![commit("b", 2), commit("a", 1), commit("b", 2), commit("a", 1), commit("c", 0)];
    compact(&mut commits);
    let once = commits.clone();
    compact(&mut commits);
    assert_eq!(once, commits);
    assert_eq!(vec![commit("a", 1), commit("b", 2), commit("c", 0)], commits);

    let mut names = vec![mapping(5, "x", 3), mapping(4, "y", 1), mapping(5, "z", 9), mapping(4, "w", 0)];
    compact(&mut names);
    let once = names.clone();
    compact(&mut names);
    assert_eq!(once, names);
    assert_eq!(vec![mapping(4, "y", 1), mapping(5, "z", 9)], names);
}

#[test]
fn latest_name_wins_in_any_order() {
    let mut forward = vec![mapping(5, "old", 100), mapping(5, "new", 200)];
    let mut backward = vec![mapping(5, "new", 200), mapping(5, "old", 100)];
    compact(&mut forward);
    compact(&mut backward);
    assert_eq!(vec![mapping(5, "new", 200)], forward);
    assert_eq!(forward, backward);
}

#[test]
fn equal_times_keep_the_name_that_sorts_first() {
    let mut a = vec![mapping(8, "b", 50), mapping(8, "a", 50)];
    let mut b = vec![mapping(8, "a", 50), mapping(8, "b", 50)];
    compact(&mut a);
    compact(&mut b);
    assert_eq!(vec![mapping(8, "a", 50)], a);
    assert_eq!(a, b);
}

#[test]
fn empty_input_compacts_to_nothing() {
    let mut none: Vec<CommitEvent> = Vec::new();
    compact(&mut none);
    assert!(none.is_empty());
}

fn run_committer_count(files: &[Vec<Event>]) -> Vec<CommitEvent> {
    let mut acc: Accumulator<CommitEvent> = Accumulator::new(2, 1000);
    let mut out = Vec::new();
    for file in files {
        for event in file {
            if let Some(chunk) = accept_commit_event(&mut acc, event) {
                out.extend(chunk);
            }
        }
    }
    out.extend(acc.finish());
    out
}

#[test]
fn three_files_give_three_contributions_in_any_order() {
    let f1 = vec![push("alice", 1)];
    let f2 = vec![merged_pr("carol", "bob", 1)];
    let f3 = vec![push("alice", 2)];
    let expected = vec![commit("alice", 1), commit("alice", 2), commit("bob", 1)];
    let orders = [
        vec![f1.clone(), f2.clone(), f3.clone()],
        vec![f3.clone(), f2.clone(), f1.clone()],
        vec![f2.clone(), f1.clone(), f3.clone(), f1.clone()],
    ];
    for files in orders.iter() {
        assert_eq!(expected, run_committer_count(files));
    }
}

#[test]
fn accumulator_flushes_at_its_ceiling() {
    let mut acc: Accumulator<CommitEvent> = Accumulator::new(2, 3);
    assert!(acc.accept(commit("a", 1)).is_none());
    assert!(acc.accept(commit("b", 1)).is_none());
    // the step compacted the two; a third record reaches the ceiling
    assert!(acc.len() < 3);
    let mut flushed = None;
    for i in 0..10 {
        if let Some(chunk) = acc.accept(commit("c", i)) {
            flushed = Some(chunk);
            break;
        }
        assert!(acc.len() < 3);
    }
    let chunk = flushed.expect("a flush before the ceiling is passed");
    assert!(chunk.len() <= 3);
    assert_eq!(0, acc.len());
    assert!(acc.finish().is_empty());
}

#[test]
fn duplicates_never_fill_the_accumulator() {
    let mut acc: Accumulator<CommitEvent> = Accumulator::new(1, 4);
    for _ in 0..100 {
        assert!(acc.accept(commit("same", 1)).is_none());
        assert!(acc.len() < 4);
    }
    assert_eq!(vec![commit("same", 1)], acc.finish());
}

#[test]
fn projections_follow_the_mode() {
    let p = push("alice", 1);
    assert_eq!(Some(commit("alice", 1)), contribution_of(&p));
    let mut watch = push("alice", 1);
    watch.event_type = "WatchEvent".to_string();
    assert_eq!(None, contribution_of(&watch));
    assert_eq!(Some(mapping(1, "r/1", 1_400_000_000)), mapping_of(&watch));
    let mut nameless = push("alice", 1);
    nameless.repo.name = String::new();
    assert_eq!(None, mapping_of(&nameless));
    let mut anonymous = push("alice", -1);
    anonymous.repo.id = -1;
    assert_eq!(None, mapping_of(&anonymous));

    let mut acc: Accumulator<RepoIdToName> = Accumulator::new(10, 100);
    assert!(accept_mapping_event(&mut acc, &nameless).is_none());
    assert_eq!(0, acc.len());
    assert!(accept_mapping_event(&mut acc, &watch).is_none());
    assert_eq!(vec![mapping(1, "r/1", 1_400_000_000)], acc.finish());
}

#[test]
fn flushed_chunks_never_exceed_the_ceiling() {
    let mut acc: Accumulator<CommitEvent> = Accumulator::new(1000, 5);
    let mut chunks = Vec::new();
    for i in 0..23 {
        if let Some(chunk) = acc.accept(commit("a", i)) {
            chunks.push(chunk);
        }
        assert!(acc.len() < 5);
    }
    assert_eq!(4, chunks.len());
    for chunk in &chunks {
        assert!(chunk.len() <= 5);
        assert_eq!(5, chunk.len());
    }
    let rest = acc.finish();
    assert_eq!(vec![commit("a", 20), commit("a", 21), commit("a", 22)], rest);
}

fn legacy(repo: Option<Repo>, repository: Option<Repo>) -> Pre2015Event {
    Pre2015Event {
        repository,
        repo,
        event_type: "PushEvent".to_string(),
        actor: Pre2015Actor::from_login("old".to_string()),
        created_at: "2013-01-01T12:00:24-08:00".to_string(),
        payload: None,
    }
}

#[test]
fn legacy_events_give_name_records() {
    let t = ts(1_357_070_424);
    let e = legacy(None, Some(Repo { id: 9, name: "a/b".to_string() }));
    assert_eq!(mapping(9, "a/b", 1_357_070_424), e.as_repo_id_mapping(t));
    assert_eq!(Some(mapping(9, "a/b", 1_357_070_424)), legacy_mapping_of(&e, t));
    let both = legacy(Some(Repo { id: 3, name: "new".to_string() }), Some(Repo { id: 4, name: "old".to_string() }));
    assert_eq!(Some(mapping(3, "new", 1_357_070_424)), legacy_mapping_of(&both, t));
    assert_eq!(None, legacy_mapping_of(&legacy(None, None), t));
    let nameless = legacy(Some(Repo { id: 3, name: String::new() }), None);
    assert_eq!(None, legacy_mapping_of(&nameless, t));
}
