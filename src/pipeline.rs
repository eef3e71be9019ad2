//! What the run decides between its outside steps: which mode it is in,
//! which records the events give, where each chunk goes, and how far the
//! listing of input files goes.
use crate::compact::{compacted, views};
use crate::engine::Accumulator;
use crate::text::{push_signed_decimal, push_two_digits, same_text, signed_decimal, two_digits};
use crate::compact::Compactable;
use crate::timestamp::Timestamp;
use crate::types::{CommitEvent, Event, Pre2015Event, RepoIdToName};
use vstd::prelude::*;

verus! {

/// The most keys one listing request asks for.
pub const MAX_PAGE_SIZE: i64 = 500;

/// The first year whose archive uses the current event schema.
pub const CURRENT_SCHEMA_YEAR: i32 = 2015;

/// Attempts to fetch one input file before it is skipped.
pub const FETCH_ATTEMPTS: u32 = 2;

/// What the run produces, and whether it writes its results.
#[derive(Debug, Clone, Copy, PartialEq, Eq)]
pub struct Mode {
    pub committer_count: bool,
    pub repo_mapping: bool,
    pub dry_run: bool,
}

/// The path segment that names a mode's output.
pub open spec fn mode_name(mode: Mode) -> Seq<char> {
    if mode.committer_count {
        "committers"@
    } else {
        "repomapping"@
    }
}

impl Mode {
    /// The mode given by the `MODE` and `DRYRUN` settings: `committer_count`
    /// or `repo_mapping`, and a dry run only for `true`.
    pub fn from_settings(mode: Option<&str>, dry_run: Option<&str>) -> (r: Mode)
        ensures
            r.committer_count == (mode matches Some(m) && m@ == "committer_count"@),
            r.repo_mapping == (mode matches Some(m) && m@ == "repo_mapping"@),
            r.dry_run == (dry_run matches Some(d) && d@ == "true"@),
    {
        let committer_count = match mode {
            Some(m) => same_text(m, "committer_count"),
            None => false,
        };
        let repo_mapping = match mode {
            Some(m) => same_text(m, "repo_mapping"),
            None => false,
        };
        let dry_run = match dry_run {
            Some(d) => same_text(d, "true"),
            None => false,
        };
        Mode { committer_count, repo_mapping, dry_run }
    }

    /// Exactly one of the two modes is chosen.
    pub fn is_valid(&self) -> (r: bool)
        ensures
            r == (self.committer_count != self.repo_mapping),
    {
        self.committer_count != self.repo_mapping
    }

    /// A dry run does everything but write its results.
    pub fn should_upload(&self) -> (r: bool)
        ensures
            r == !self.dry_run,
    {
        !self.dry_run
    }
}

/// Whether the archive of `year` is decoded with the current schema rather
/// than the legacy one. A run reads one year, so one schema.
pub fn uses_current_schema(year: i32) -> (r: bool)
    ensures
        r == (year >= CURRENT_SCHEMA_YEAR),
{
    year >= CURRENT_SCHEMA_YEAR
}

/// A yes-or-no setting: `true` or `false` as written, else `default`.
pub fn flag_setting(value: Option<&str>, default: bool) -> (r: bool)
    ensures
        value matches Some(v) && v@ == "true"@ ==> r,
        value matches Some(v) && v@ == "false"@ ==> !r,
        !(value matches Some(v) && (v@ == "true"@ || v@ == "false"@)) ==> r == default,
{
    proof {
        reveal_strlit("true");
        reveal_strlit("false");
        assert("true"@.len() != "false"@.len());
    }
    match value {
        Some(v) => {
            if same_text(v, "true") {
                true
            } else if same_text(v, "false") {
                false
            } else {
                default
            }
        },
        None => default,
    }
}

pub fn generate_mode_string(mode: &Mode) -> (r: String)
    ensures
        r@ == mode_name(*mode),
{
    if mode.committer_count {
        String::from_str("committers")
    } else {
        String::from_str("repomapping")
    }
}

/// `rvh2/<mode>/<year>/<index>[_<part>].txt.gz`, index and part padded to two
/// digits.
pub open spec fn chunk_key_text(mode: Mode, year: i32, index: u64, part: Option<u64>) -> Seq<char> {
    "rvh2/"@ + mode_name(mode) + "/"@ + signed_decimal(year as int) + "/"@ + two_digits(
        index as nat,
    ) + match part {
        Some(p) => "_"@ + two_digits(p as nat),
        None => Seq::empty(),
    } + ".txt.gz"@
}

/// The key under which an output chunk is stored.
pub fn chunk_key(mode: &Mode, year: i32, index: u64, part: Option<u64>) -> (r: String)
    ensures
        r@ == chunk_key_text(*mode, year, index, part),
{
    let mut key = String::from_str("rvh2/");
    let name = generate_mode_string(mode);
    key.append(name.as_str());
    key.append("/");
    push_signed_decimal(&mut key, year as i64);
    key.append("/");
    push_two_digits(&mut key, index);
    match part {
        Some(p) => {
            key.append("_");
            push_two_digits(&mut key, p);
        },
        None => {},
    }
    key.append(".txt.gz");
    proof {
        assert(key@ =~= chunk_key_text(*mode, year, index, part));
    }
    key
}

/// How many keys the next listing request asks for, having `gathered` of
/// `wanted`.
pub fn page_size(gathered: usize, wanted: i64) -> (r: i64)
    requires
        gathered < wanted,
    ensures
        r == if wanted - gathered < MAX_PAGE_SIZE { wanted - gathered } else { MAX_PAGE_SIZE as int },
        0 < r <= MAX_PAGE_SIZE,
{
    let remaining = wanted - gathered as i64;
    if remaining < MAX_PAGE_SIZE {
        remaining
    } else {
        MAX_PAGE_SIZE
    }
}

/// Listing goes on while keys are missing and the store offers another page.
pub fn listing_continues(gathered: usize, wanted: i64, has_token: bool) -> (r: bool)
    ensures
        r == (has_token && gathered < wanted),
{
    has_token && (gathered as i128) < (wanted as i128)
}

/// Splits the file list between two workers: `files` keeps the first half,
/// the second half is returned.
pub fn split_file_list(files: &mut Vec<String>) -> (r: Vec<String>)
    ensures
        final(files)@ == old(files)@.subrange(0, (old(files)@.len() / 2) as int),
        r@ == old(files)@.subrange((old(files)@.len() / 2) as int, old(files)@.len() as int),
{
    let middle = files.len() / 2;
    files.split_off(middle)
}

/// Another attempt at fetching a file follows a failed one, up to
/// `FETCH_ATTEMPTS` in all.
pub fn retry_fetch(failed_attempts: u32) -> (r: bool)
    ensures
        r == (failed_attempts < FETCH_ATTEMPTS),
{
    failed_attempts < FETCH_ATTEMPTS
}

/// The contribution an event stands for, if it is a merged pull request or
/// a push of at least one commit.
pub fn contribution_of(event: &Event) -> (r: Option<CommitEvent>)
    ensures
        r is Some <==> (event.accepted_pr() || event.direct_push()),
        r matches Some(c) ==> c.actor@ == event.contributor() && c.repo_id == event.repo.id,
{
    if event.is_commit_event() {
        Some(event.as_commit_event())
    } else {
        None
    }
}

/// The name record an event gives, if it has a repository id and name.
pub fn mapping_of(event: &Event) -> (r: Option<RepoIdToName>)
    ensures
        r is Some <==> (event.repo.id >= 0 && event.repo.name@.len() > 0),
        r matches Some(m) ==> m.repo_id == event.repo.id && m.repo_name@ == event.repo.name@
            && m.event_timestamp == event.created_at,
{
    let m = event.as_repo_id_mapping();
    if m.has_required_data() {
        Some(m)
    } else {
        None
    }
}

/// Takes an event in committer-count mode: its contribution, if any, goes to
/// the accumulator, which may flush.
pub fn accept_commit_event(acc: &mut Accumulator<CommitEvent>, event: &Event) -> (r: Option<
    Vec<CommitEvent>,
>)
    requires
        old(acc).wf(),
    ensures
        final(acc).wf(),
        final(acc).ceiling() == old(acc).ceiling(),
        !(event.accepted_pr() || event.direct_push()) ==> r is None && final(acc).pending()
            == old(acc).pending(),
        (event.accepted_pr() || event.direct_push()) ==> (r is Some <==> old(acc).held() + 1
            == old(acc).ceiling()),
        r matches Some(chunk) ==> final(acc).pending().len() == 0 && compacted::<CommitEvent>(
            old(acc).pending().push((event.contributor(), event.repo.id)),
            views(chunk@),
        ),
        (event.accepted_pr() || event.direct_push()) && r is None ==> final(acc).pending()
            == old(acc).pending().push((event.contributor(), event.repo.id)),
        !(event.accepted_pr() || event.direct_push()) ==> final(acc).held() == old(acc).held(),
        r is None ==> final(acc).held() <= old(acc).held() + 1,
{
    match contribution_of(event) {
        Some(c) => acc.accept(c),
        None => None,
    }
}

/// Takes an event in repository-mapping mode: its name record, if usable,
/// goes to the accumulator, which may flush.
pub fn accept_mapping_event(acc: &mut Accumulator<RepoIdToName>, event: &Event) -> (r: Option<
    Vec<RepoIdToName>,
>)
    requires
        old(acc).wf(),
    ensures
        final(acc).wf(),
        final(acc).ceiling() == old(acc).ceiling(),
        !(event.repo.id >= 0 && event.repo.name@.len() > 0) ==> r is None && final(acc).pending()
            == old(acc).pending(),
        (event.repo.id >= 0 && event.repo.name@.len() > 0) ==> (r is Some <==> old(acc).held() + 1
            == old(acc).ceiling()),
        r matches Some(chunk) ==> final(acc).pending().len() == 0
            && compacted::<RepoIdToName>(
            old(acc).pending().push((event.repo.id, event.repo.name@, event.created_at.seconds())),
            views(chunk@),
        ),
        (event.repo.id >= 0 && event.repo.name@.len() > 0) && r is None ==> final(acc).pending()
            == old(acc).pending().push((event.repo.id, event.repo.name@, event.created_at.seconds())),
        !(event.repo.id >= 0 && event.repo.name@.len() > 0) ==> final(acc).held() == old(acc).held(),
        r is None ==> final(acc).held() <= old(acc).held() + 1,
{
    match mapping_of(event) {
        Some(m) => acc.accept(m),
        None => None,
    }
}

/// The name record a legacy event gives at `event_timestamp`, if it has a
/// repository id and name.
pub fn legacy_mapping_of(event: &Pre2015Event, event_timestamp: Timestamp) -> (r: Option<
    RepoIdToName,
>)
    ensures
        r is Some <==> (event.spec_repo_id() >= 0 && event.spec_repo_name().len() > 0),
        r matches Some(m) ==> m.repo_id == event.spec_repo_id() && m.repo_name@
            == event.spec_repo_name() && m.event_timestamp == event_timestamp,
{
    let m = event.as_repo_id_mapping(event_timestamp);
    if m.has_required_data() {
        Some(m)
    } else {
        None
    }
}

/// An event of the current schema stands for a contribution.
pub open spec fn is_contribution(e: Event) -> bool {
    e.accepted_pr() || e.direct_push()
}

/// The contribution record of an event, as the accumulator holds it.
pub open spec fn contribution_record(e: Event) -> (Seq<char>, i64) {
    (e.contributor(), e.repo.id)
}

/// The contribution records of `events`, in arrival order; this is what
/// `accept_commit_event` adds to the accumulator's pending records.
pub open spec fn contributions(events: Seq<Event>) -> Seq<(Seq<char>, i64)>
    decreases events.len(),
{
    if events.len() == 0 {
        Seq::empty()
    } else if is_contribution(events.last()) {
        contributions(events.drop_last()).push(contribution_record(events.last()))
    } else {
        contributions(events.drop_last())
    }
}

proof fn lemma_contributions_contains(events: Seq<Event>, c: (Seq<char>, i64))
    ensures
        contributions(events).contains(c) <==> exists|i: int|
            0 <= i < events.len() && is_contribution(#[trigger] events[i]) && contribution_record(
                events[i],
            ) == c,
    decreases events.len(),
{
    if events.len() > 0 {
        let init = events.drop_last();
        lemma_contributions_contains(init, c);
        let last = events.len() - 1;
        if contributions(events).contains(c) {
            if is_contribution(events.last()) && contribution_record(events.last()) == c {
                assert(is_contribution(events[last]));
            } else {
                let s = contributions(events);
                let k = choose|k: int| 0 <= k < s.len() && s[k] == c;
                assert(contributions(init)[k] == c);
                assert(contributions(init).contains(c));
                let i = choose|i: int|
                    0 <= i < init.len() && is_contribution(#[trigger] init[i])
                        && contribution_record(init[i]) == c;
                assert(events[i] == init[i]);
            }
        }
        if exists|i: int|
            0 <= i < events.len() && is_contribution(#[trigger] events[i]) && contribution_record(
                events[i],
            ) == c {
            let i = choose|i: int|
                0 <= i < events.len() && is_contribution(#[trigger] events[i])
                    && contribution_record(events[i]) == c;
            if i == last {
                let s = contributions(events);
                assert(s[s.len() - 1] == c);
            } else {
                assert(init[i] == events[i]);
                let t = contributions(init);
                assert(t.contains(c));
                let k = choose|k: int| 0 <= k < t.len() && t[k] == c;
                if is_contribution(events.last()) {
                    assert(contributions(events)[k] == c);
                }
            }
        }
    }
}

/// The committer output depends only on which events arrived, not on their
/// order, nor on how the input files were split between the producers, nor
/// on how often an event repeats: two arrival orders of the same events
/// compact to the same records. Those records are the contributions of the
/// events, each once.
pub proof fn lemma_contributions_order_independent(
    x: Seq<Event>,
    y: Seq<Event>,
    ox: Seq<(Seq<char>, i64)>,
    oy: Seq<(Seq<char>, i64)>,
)
    requires
        forall|e: Event| x.contains(e) <==> y.contains(e),
        compacted::<CommitEvent>(contributions(x), ox),
        compacted::<CommitEvent>(contributions(y), oy),
    ensures
        ox == oy,
        forall|c: (Seq<char>, i64)|
            ox.contains(c) <==> exists|i: int|
                0 <= i < x.len() && is_contribution(#[trigger] x[i]) && contribution_record(x[i])
                    == c,
        forall|i: int, j: int| 0 <= i < j < ox.len() ==> ox[i] != ox[j],
{
    assert forall|c: (Seq<char>, i64)| contributions(x).contains(c) <==> contributions(y).contains(
        c,
    ) by {
        lemma_contributions_contains(x, c);
        lemma_contributions_contains(y, c);
        if exists|i: int|
            0 <= i < x.len() && is_contribution(#[trigger] x[i]) && contribution_record(x[i]) == c {
            let i = choose|i: int|
                0 <= i < x.len() && is_contribution(#[trigger] x[i]) && contribution_record(x[i])
                    == c;
            assert(x.contains(x[i]));
            assert(y.contains(x[i]));
            let j = choose|j: int| 0 <= j < y.len() && y[j] == x[i];
            assert(is_contribution(y[j]));
        }
        if exists|i: int|
            0 <= i < y.len() && is_contribution(#[trigger] y[i]) && contribution_record(y[i]) == c {
            let i = choose|i: int|
                0 <= i < y.len() && is_contribution(#[trigger] y[i]) && contribution_record(y[i])
                    == c;
            assert(y.contains(y[i]));
            assert(x.contains(y[i]));
            let j = choose|j: int| 0 <= j < x.len() && x[j] == y[i];
            assert(is_contribution(x[j]));
        }
    }
    crate::compact::lemma_compact_order_independent::<CommitEvent>(
        contributions(x),
        contributions(y),
        ox,
        oy,
    );
    assert forall|c: (Seq<char>, i64)| ox.contains(c) <==> exists|i: int|
        0 <= i < x.len() && is_contribution(#[trigger] x[i]) && contribution_record(x[i]) == c by {
        lemma_contributions_contains(x, c);
        if contributions(x).contains(c) {
            assert(crate::compact::covers::<CommitEvent>(ox, c));
            let j = choose|j: int|
                0 <= j < ox.len() && crate::compact::same_key::<CommitEvent>(#[trigger] ox[j], c)
                    && crate::compact::kept_over::<CommitEvent>(ox[j], c);
            assert(ox[j] == c);
        }
    }
    assert forall|i: int, j: int| 0 <= i < j < ox.len() implies ox[i] != ox[j] by {
        assert(CommitEvent::precedes(ox[i], ox[j]));
        CommitEvent::lemma_precedes_irreflexive(ox[i]);
    }
}

} // verus!
