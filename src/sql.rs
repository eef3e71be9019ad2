//! Batched SQL statements for the two result sets.
use crate::text::{joined, push_part, push_signed_decimal, remove_char, signed_decimal, without_char};
use crate::timestamp::utc_text;
use crate::types::{CommitEvent, RepoIdToName};
use vstd::prelude::*;

verus! {

/// Rows of the repository mapping in one statement, at most.
pub const MAPPING_BATCH: usize = 5;

/// Rows of committer facts in one statement, at most.
pub const COMMITTER_BATCH: usize = 20;

/// A mapping row as it is written: repository id, name, timestamp text.
pub type MappingRow = (i64, Seq<char>, Seq<char>);

/// A committer row as it is written: repository id, contributor text.
pub type CommitterRow = (i64, Seq<char>);

// ---------------------------------------------------------------------
// repository mapping

pub open spec fn mapping_head() -> Seq<char> {
    "INSERT INTO repo_mapping (repo_id, repo_name, event_timestamp)\nVALUES "@
}

pub open spec fn mapping_tail() -> Seq<char> {
    "\nON CONFLICT (repo_id) DO UPDATE SET (repo_name, event_timestamp) = (excluded.repo_name, excluded.event_timestamp)\nWHERE repo_mapping.repo_id = EXCLUDED.repo_id AND repo_mapping.event_timestamp < EXCLUDED.event_timestamp;"@
}

pub open spec fn mapping_row_text(r: MappingRow) -> Seq<char> {
    "("@ + signed_decimal(r.0 as int) + ", '"@ + r.1 + "', '"@ + r.2 + "')"@
}

/// One upsert statement for all of `rows`.
pub open spec fn mapping_statement(rows: Seq<MappingRow>) -> Seq<char> {
    mapping_head() + joined(rows.map_values(|r: MappingRow| mapping_row_text(r)), ", "@)
        + mapping_tail()
}

/// Some id occurs twice in `ids`.
pub open spec fn has_repeat(ids: Seq<i64>) -> bool {
    exists|i: int, j: int| 0 <= i < j < ids.len() && ids[i] == ids[j]
}

pub open spec fn row_ids(rows: Seq<MappingRow>) -> Seq<i64> {
    rows.map_values(|r: MappingRow| r.0)
}

pub open spec fn record_ids(rows: Seq<RepoIdToName>) -> Seq<i64> {
    rows.map_values(|r: RepoIdToName| r.repo_id)
}

/// The statements of one batch: one combined statement, or, where a
/// repository repeats, which one statement cannot update twice, one
/// statement per row.
pub open spec fn batch_statements(batch: Seq<MappingRow>) -> Seq<Seq<char>> {
    if has_repeat(row_ids(batch)) {
        batch.map_values(|r: MappingRow| mapping_statement(seq![r]))
    } else {
        seq![mapping_statement(batch)]
    }
}

/// The statements for `rows`, taken in batches of `MAPPING_BATCH`.
pub open spec fn mapping_statements(rows: Seq<MappingRow>) -> Seq<Seq<char>>
    decreases rows.len(),
{
    if rows.len() == 0 {
        Seq::empty()
    } else {
        let n = if rows.len() < MAPPING_BATCH { rows.len() as int } else { MAPPING_BATCH as int };
        batch_statements(rows.take(n)) + mapping_statements(rows.skip(n))
    }
}

/// `rows` with the given timestamp texts.
pub open spec fn rendered_rows(rows: Seq<RepoIdToName>, stamps: Seq<String>) -> Seq<MappingRow> {
    Seq::new(rows.len(), |i: int| (rows[i].repo_id, rows[i].repo_name@, stamps[i]@))
}

/// `rows` with chrono's UTC text of their timestamps.
pub open spec fn stamped_rows(rows: Seq<RepoIdToName>) -> Seq<MappingRow> {
    Seq::new(
        rows.len(),
        |i: int| (rows[i].repo_id, rows[i].repo_name@, utc_text(rows[i].event_timestamp.seconds())),
    )
}

fn ids_repeat(rows: &[RepoIdToName], lo: usize, hi: usize) -> (r: bool)
    requires
        lo <= hi <= rows@.len(),
    ensures
        r == has_repeat(record_ids(rows@).subrange(lo as int, hi as int)),
{
    let ghost b = record_ids(rows@).subrange(lo as int, hi as int);
    let mut i: usize = lo;
    while i < hi
        invariant
            lo <= i <= hi <= rows@.len(),
            b == record_ids(rows@).subrange(lo as int, hi as int),
            forall|p: int, q: int| 0 <= p < q < b.len() && p < i - lo ==> b[p] != b[q],
        decreases hi - i,
    {
        let mut j: usize = i + 1;
        while j < hi
            invariant
                lo <= i < j <= hi,
                hi <= rows@.len(),
                b == record_ids(rows@).subrange(lo as int, hi as int),
                forall|p: int, q: int| 0 <= p < q < b.len() && p < i - lo ==> b[p] != b[q],
                forall|q: int| i - lo < q < j - lo ==> b[i - lo] != #[trigger] b[q],
            decreases hi - j,
        {
            if rows[i].repo_id == rows[j].repo_id {
                proof {
                    assert(b[i - lo] == b[j - lo]);
                }
                return true;
            }
            j = j + 1;
        }
        i = i + 1;
    }
    false
}

/// Whether two of the rows name the same repository.
pub fn dupes_in(repo_id_mappings: &[RepoIdToName]) -> (r: bool)
    ensures
        r == has_repeat(record_ids(repo_id_mappings@)),
{
    let r = ids_repeat(repo_id_mappings, 0, repo_id_mappings.len());
    proof {
        assert(record_ids(repo_id_mappings@).subrange(0, repo_id_mappings@.len() as int)
            =~= record_ids(repo_id_mappings@));
    }
    r
}

fn push_mapping_row(out: &mut String, row: &RepoIdToName, stamp: &str)
    ensures
        final(out)@ == old(out)@ + mapping_row_text((row.repo_id, row.repo_name@, stamp@)),
{
    out.append("(");
    push_signed_decimal(out, row.repo_id);
    out.append(", '");
    out.append(row.repo_name.as_str());
    out.append("', '");
    out.append(stamp);
    out.append("')");
    proof {
        assert(final(out)@ =~= old(out)@ + mapping_row_text((row.repo_id, row.repo_name@, stamp@)));
    }
}

fn mapping_statement_text(rows: &[RepoIdToName], stamps: &[String], lo: usize, hi: usize) -> (r:
    String)
    requires
        lo < hi <= rows@.len(),
        rows@.len() == stamps@.len(),
    ensures
        r@ == mapping_statement(rendered_rows(rows@, stamps@).subrange(lo as int, hi as int)),
{
    let ghost batch = rendered_rows(rows@, stamps@).subrange(lo as int, hi as int);
    let ghost texts = batch.map_values(|r: MappingRow| mapping_row_text(r));
    let mut values = String::new();
    let ghost mut parts: Seq<Seq<char>> = Seq::empty();
    let mut k: usize = lo;
    while k < hi
        invariant
            lo <= k <= hi <= rows@.len(),
            rows@.len() == stamps@.len(),
            batch == rendered_rows(rows@, stamps@).subrange(lo as int, hi as int),
            texts == batch.map_values(|r: MappingRow| mapping_row_text(r)),
            parts == texts.subrange(0, k - lo),
            values@ == joined(parts, ", "@),
        decreases hi - k,
    {
        let mut row = String::new();
        push_mapping_row(&mut row, &rows[k], stamps[k].as_str());
        proof {
            assert(row@ == texts[k - lo]);
        }
        push_part(&mut values, k == lo, ", ", row.as_str(), Ghost(parts));
        proof {
            parts = parts.push(row@);
            assert(parts =~= texts.subrange(0, k + 1 - lo));
        }
        k = k + 1;
    }
    let mut out = String::new();
    out.append("INSERT INTO repo_mapping (repo_id, repo_name, event_timestamp)\nVALUES ");
    out.append(values.as_str());
    out.append("\nON CONFLICT (repo_id) DO UPDATE SET (repo_name, event_timestamp) = (excluded.repo_name, excluded.event_timestamp)\nWHERE repo_mapping.repo_id = EXCLUDED.repo_id AND repo_mapping.event_timestamp < EXCLUDED.event_timestamp;");
    proof {
        assert(parts =~= texts);
        assert(out@ =~= mapping_statement(batch));
    }
    out
}

proof fn lemma_mapping_statements_step(all: Seq<MappingRow>, start: int, end: int)
    requires
        0 <= start < end <= all.len(),
        end == if all.len() - start < MAPPING_BATCH { all.len() as int } else { start
            + MAPPING_BATCH },
    ensures
        mapping_statements(all.skip(start)) == batch_statements(all.subrange(start, end))
            + mapping_statements(all.skip(end)),
{
    let rest = all.skip(start);
    assert(rest.take(end - start) =~= all.subrange(start, end));
    assert(rest.skip(end - start) =~= all.skip(end));
}

/// The upsert statements for `rows`, given the timestamp text of each row,
/// in batches of `MAPPING_BATCH` rows, joined by line breaks. A batch in
/// which a repository repeats is written one statement per row.
pub fn group_repo_rows_sql(rows: &[RepoIdToName], stamps: &[String]) -> (r: String)
    requires
        rows@.len() == stamps@.len(),
    ensures
        r@ == joined(mapping_statements(rendered_rows(rows@, stamps@)), "\n"@),
{
    let ghost all = rendered_rows(rows@, stamps@);
    let n = rows.len();
    let mut out = String::new();
    let ghost mut done: Seq<Seq<char>> = Seq::empty();
    let mut first = true;
    let mut start: usize = 0;
    proof {
        assert(all.skip(0) =~= all);
    }
    while start < n
        invariant
            start <= n == rows@.len() == stamps@.len(),
            all == rendered_rows(rows@, stamps@),
            out@ == joined(done, "\n"@),
            first == (done.len() == 0),
            done + mapping_statements(all.skip(start as int)) == mapping_statements(all),
        decreases n - start,
    {
        let end = if n - start < MAPPING_BATCH {
            n
        } else {
            start + MAPPING_BATCH
        };
        let ghost batch = all.subrange(start as int, end as int);
        let ghost done_before = done;
        proof {
            lemma_mapping_statements_step(all, start as int, end as int);
            assert(row_ids(batch) =~= record_ids(rows@).subrange(start as int, end as int));
        }
        if ids_repeat(rows, start, end) {
            let ghost singles = batch.map_values(|r: MappingRow| mapping_statement(seq![r]));
            let mut k: usize = start;
            while k < end
                invariant
                    start <= k <= end <= n,
                    n == rows@.len() == stamps@.len(),
                    all == rendered_rows(rows@, stamps@),
                    batch == all.subrange(start as int, end as int),
                    singles == batch.map_values(|r: MappingRow| mapping_statement(seq![r])),
                    out@ == joined(done, "\n"@),
                    first == (done.len() == 0),
                    done == done_before + singles.subrange(0, k - start),
                decreases end - k,
            {
                let stmt = mapping_statement_text(rows, stamps, k, k + 1);
                proof {
                    assert(all.subrange(k as int, k + 1) =~= seq![batch[k - start]]);
                }
                push_part(&mut out, first, "\n", stmt.as_str(), Ghost(done));
                proof {
                    done = done.push(stmt@);
                    assert(done =~= done_before + singles.subrange(0, k + 1 - start));
                }
                first = false;
                k = k + 1;
            }
            proof {
                assert(singles.subrange(0, end - start) =~= singles);
            }
        } else {
            let stmt = mapping_statement_text(rows, stamps, start, end);
            push_part(&mut out, first, "\n", stmt.as_str(), Ghost(done));
            proof {
                done = done.push(stmt@);
            }
            first = false;
        }
        proof {
            assert(done =~= done_before + batch_statements(batch));
            assert(done + mapping_statements(all.skip(end as int)) =~= done_before + (
            batch_statements(batch) + mapping_statements(all.skip(end as int))));
        }
        start = end;
    }
    proof {
        assert(all.skip(n as int) =~= Seq::<MappingRow>::empty());
        assert(done + Seq::<Seq<char>>::empty() =~= done);
    }
    out
}

/// The upsert statements for `repo_id_mappings`, with each timestamp
/// written in chrono's UTC text.
pub fn group_repo_id_sql_insert(repo_id_mappings: &[RepoIdToName]) -> (r: String)
    ensures
        r@ == joined(mapping_statements(stamped_rows(repo_id_mappings@)), "\n"@),
{
    let mut stamps: Vec<String> = Vec::new();
    let mut i: usize = 0;
    while i < repo_id_mappings.len()
        invariant
            i <= repo_id_mappings@.len(),
            stamps@.len() == i,
            forall|k: int|
                0 <= k < i ==> (#[trigger] stamps@[k])@ == utc_text(
                    repo_id_mappings@[k].event_timestamp.seconds(),
                ),
        decreases repo_id_mappings@.len() - i,
    {
        stamps.push(repo_id_mappings[i].event_timestamp.utc_string());
        i = i + 1;
    }
    proof {
        assert(rendered_rows(repo_id_mappings@, stamps@) =~= stamped_rows(repo_id_mappings@));
    }
    group_repo_rows_sql(repo_id_mappings, stamps.as_slice())
}

/// Of a batch of mapping rows in which some repository repeats, each row
/// becomes a statement of its own, in order; a batch of distinct
/// repositories becomes exactly one statement that holds all its rows.
pub proof fn lemma_conflict_safe_batching(batch: Seq<MappingRow>)
    ensures
        has_repeat(row_ids(batch)) ==> batch_statements(batch).len() == batch.len() && forall|
            i: int,
        |
            0 <= i < batch.len() ==> #[trigger] batch_statements(batch)[i] == mapping_statement(
                seq![batch[i]],
            ),
        !has_repeat(row_ids(batch)) ==> batch_statements(batch) == seq![mapping_statement(batch)],
{
}

/// The batches of the generator are the consecutive runs of `MAPPING_BATCH`
/// rows, the last one shorter.
pub proof fn lemma_mapping_batches(rows: Seq<MappingRow>)
    ensures
        rows.len() > MAPPING_BATCH ==> mapping_statements(rows) == batch_statements(
            rows.take(MAPPING_BATCH as int),
        ) + mapping_statements(rows.skip(MAPPING_BATCH as int)),
        0 < rows.len() <= MAPPING_BATCH ==> mapping_statements(rows) == batch_statements(rows),
{
    if 0 < rows.len() <= MAPPING_BATCH {
        assert(rows.take(rows.len() as int) =~= rows);
        let rest = rows.skip(rows.len() as int);
        assert(rest.len() == 0);
        assert(mapping_statements(rest) =~= Seq::<Seq<char>>::empty());
        assert(batch_statements(rows) + mapping_statements(rest) =~= batch_statements(rows));
    }
}

/// A single upsert statement on one line, which keeps a stored name unless
/// the row is newer.
pub open spec fn single_upsert(id: i64, name: Seq<char>, stamp: Seq<char>) -> Seq<char> {
    "INSERT INTO repo_mapping (repo_id, repo_name, event_timestamp)            VALUES ("@
        + signed_decimal(id as int) + ", '"@ + name + "', '"@ + stamp
        + "')            ON CONFLICT (repo_id) DO UPDATE SET (repo_name, event_timestamp) = ('"@
        + name + "', '"@ + stamp
        + "')            WHERE repo_mapping.repo_id = EXCLUDED.repo_id AND repo_mapping.event_timestamp < EXCLUDED.event_timestamp;"@
}

impl RepoIdToName {
    /// A record without a repository id, or without a name, carries nothing
    /// to store.
    pub open spec fn usable(self) -> bool {
        self.repo_id >= 0 && self.repo_name@.len() > 0
    }

    pub fn has_required_data(&self) -> (r: bool)
        ensures
            r == self.usable(),
    {
        self.repo_id >= 0 && self.repo_name.unicode_len() > 0
    }

    /// The record as one upsert statement on one line, given the text of its
    /// timestamp; empty where the record is not usable.
    pub fn as_sql_with_stamp(&self, stamp: &str) -> (r: String)
        ensures
            !self.usable() ==> r@.len() == 0,
            self.usable() ==> r@ == single_upsert(
                self.repo_id,
                without_char(self.repo_name@, '\n'),
                without_char(stamp@, '\n'),
            ),
    {
        if !self.has_required_data() {
            return String::new();
        }
        let name = remove_char(self.repo_name.as_str(), '\n');
        let stamp_text = remove_char(stamp, '\n');
        let mut out = String::new();
        out.append("INSERT INTO repo_mapping (repo_id, repo_name, event_timestamp)            VALUES (");
        push_signed_decimal(&mut out, self.repo_id);
        out.append(", '");
        out.append(name.as_str());
        out.append("', '");
        out.append(stamp_text.as_str());
        out.append("')            ON CONFLICT (repo_id) DO UPDATE SET (repo_name, event_timestamp) = ('");
        out.append(name.as_str());
        out.append("', '");
        out.append(stamp_text.as_str());
        out.append("')            WHERE repo_mapping.repo_id = EXCLUDED.repo_id AND repo_mapping.event_timestamp < EXCLUDED.event_timestamp;");
        proof {
            assert(out@ =~= single_upsert(self.repo_id, name@, stamp_text@));
        }
        out
    }

    /// The record as one upsert statement on one line, with its timestamp in
    /// chrono's UTC text; empty where the record is not usable.
    pub fn as_sql(&self) -> (r: String)
        ensures
            !self.usable() ==> r@.len() == 0,
            self.usable() ==> r@ == single_upsert(
                self.repo_id,
                without_char(self.repo_name@, '\n'),
                without_char(utc_text(self.event_timestamp.seconds()), '\n'),
            ),
    {
        let stamp = self.event_timestamp.utc_string();
        self.as_sql_with_stamp(stamp.as_str())
    }
}

// ---------------------------------------------------------------------
// committer facts

/// The SHA-1 digest of a text's UTF-8 bytes in lowercase hexadecimal.
pub uninterp spec fn sha1_hex(s: Seq<char>) -> Seq<char>;

/// Relies on the sha1 crate: `Sha1::update` over the text's bytes, then the
/// `Display` of the `Digest`, which writes its five words as eight hex digits
/// each.
#[verifier::external_body]
fn sha1_hex_text(text: &str) -> (r: String)
    ensures
        r@ == sha1_hex(text@),
        r@.len() == 40,
{
    let mut hasher = sha1::Sha1::new();
    hasher.update(text.as_bytes());
    hasher.digest().to_string()
}

pub open spec fn committer_head() -> Seq<char> {
    "INSERT INTO committer_repo_id_names (repo_id, actor_name) VALUES "@
}

pub open spec fn committer_tail() -> Seq<char> {
    " ON CONFLICT DO NOTHING;"@
}

pub open spec fn committer_row_text(r: CommitterRow) -> Seq<char> {
    "("@ + signed_decimal(r.0 as int) + ", '"@ + r.1 + "')"@
}

/// One insert statement for all of `rows`.
pub open spec fn committer_statement(rows: Seq<CommitterRow>) -> Seq<char> {
    committer_head() + joined(rows.map_values(|r: CommitterRow| committer_row_text(r)), ", "@)
        + committer_tail()
}

/// The statements for `rows`, one for each batch of `COMMITTER_BATCH` rows.
pub open spec fn committer_statements(rows: Seq<CommitterRow>) -> Seq<Seq<char>>
    decreases rows.len(),
{
    if rows.len() == 0 {
        Seq::empty()
    } else {
        let n = if rows.len() < COMMITTER_BATCH { rows.len() as int } else { COMMITTER_BATCH as int };
        seq![committer_statement(rows.take(n))] + committer_statements(rows.skip(n))
    }
}

/// Contributions as rows, with the contributor as is.
pub open spec fn committer_rows(events: Seq<CommitEvent>) -> Seq<CommitterRow> {
    events.map_values(|e: CommitEvent| (e.repo_id, e.actor@))
}

/// Contributions as rows, with the contributor's SHA-1 in its place.
pub open spec fn obfuscated_rows(events: Seq<CommitEvent>) -> Seq<CommitterRow> {
    events.map_values(|e: CommitEvent| (e.repo_id, sha1_hex(e.actor@)))
}

fn committer_statement_text(rows: &[CommitEvent], lo: usize, hi: usize) -> (r: String)
    requires
        lo < hi <= rows@.len(),
    ensures
        r@ == committer_statement(committer_rows(rows@).subrange(lo as int, hi as int)),
{
    let ghost batch = committer_rows(rows@).subrange(lo as int, hi as int);
    let ghost texts = batch.map_values(|r: CommitterRow| committer_row_text(r));
    let mut values = String::new();
    let ghost mut parts: Seq<Seq<char>> = Seq::empty();
    let mut k: usize = lo;
    while k < hi
        invariant
            lo <= k <= hi <= rows@.len(),
            batch == committer_rows(rows@).subrange(lo as int, hi as int),
            texts == batch.map_values(|r: CommitterRow| committer_row_text(r)),
            parts == texts.subrange(0, k - lo),
            values@ == joined(parts, ", "@),
        decreases hi - k,
    {
        let mut row = String::new();
        row.append("(");
        push_signed_decimal(&mut row, rows[k].repo_id);
        row.append(", '");
        row.append(rows[k].actor.as_str());
        row.append("')");
        proof {
            assert(row@ =~= texts[k - lo]);
        }
        push_part(&mut values, k == lo, ", ", row.as_str(), Ghost(parts));
        proof {
            parts = parts.push(row@);
            assert(parts =~= texts.subrange(0, k + 1 - lo));
        }
        k = k + 1;
    }
    let mut out = String::new();
    out.append("INSERT INTO committer_repo_id_names (repo_id, actor_name) VALUES ");
    out.append(values.as_str());
    out.append(" ON CONFLICT DO NOTHING;");
    proof {
        assert(parts =~= texts);
        assert(out@ =~= committer_statement(batch));
    }
    out
}

/// The insert statements for `committers`, in order, `COMMITTER_BATCH` rows
/// to a statement, joined by line breaks.
pub fn group_committer_sql_insert(committers: &[CommitEvent]) -> (r: String)
    ensures
        r@ == joined(committer_statements(committer_rows(committers@)), "\n"@),
{
    let ghost all = committer_rows(committers@);
    let n = committers.len();
    let mut out = String::new();
    let ghost mut done: Seq<Seq<char>> = Seq::empty();
    let mut start: usize = 0;
    proof {
        assert(all.skip(0) =~= all);
    }
    while start < n
        invariant
            start <= n == committers@.len(),
            all == committer_rows(committers@),
            out@ == joined(done, "\n"@),
            (start == 0) == (done.len() == 0),
            done + committer_statements(all.skip(start as int)) == committer_statements(all),
        decreases n - start,
    {
        let end = if n - start < COMMITTER_BATCH {
            n
        } else {
            start + COMMITTER_BATCH
        };
        let stmt = committer_statement_text(committers, start, end);
        let ghost done_before = done;
        proof {
            let rest = all.skip(start as int);
            assert(rest.take(end - start) =~= all.subrange(start as int, end as int));
            assert(rest.skip(end - start) =~= all.skip(end as int));
        }
        push_part(&mut out, start == 0, "\n", stmt.as_str(), Ghost(done));
        proof {
            done = done.push(stmt@);
            assert(done + committer_statements(all.skip(end as int)) =~= done_before + (seq![stmt@]
                + committer_statements(all.skip(end as int))));
        }
        start = end;
    }
    proof {
        assert(all.skip(n as int) =~= Seq::<CommitterRow>::empty());
        assert(done + Seq::<Seq<char>>::empty() =~= done);
    }
    out
}

/// The insert statements for `committers`; with `obfuscate`, each
/// contributor is written as the SHA-1 of its login.
pub fn group_committer_sql_insert_par(committers: &[CommitEvent], obfuscate: bool) -> (r: String)
    ensures
        obfuscate ==> r@ == joined(committer_statements(obfuscated_rows(committers@)), "\n"@),
        !obfuscate ==> r@ == joined(committer_statements(committer_rows(committers@)), "\n"@),
{
    if !obfuscate {
        return group_committer_sql_insert(committers);
    }
    let mut hashed: Vec<CommitEvent> = Vec::new();
    let mut i: usize = 0;
    while i < committers.len()
        invariant
            i <= committers@.len(),
            hashed@.len() == i,
            forall|k: int|
                0 <= k < i ==> (#[trigger] hashed@[k]).repo_id == committers@[k].repo_id
                    && hashed@[k].actor@ == sha1_hex(committers@[k].actor@),
        decreases committers@.len() - i,
    {
        let actor = sha1_hex_text(committers[i].actor.as_str());
        hashed.push(CommitEvent { actor, repo_id: committers[i].repo_id });
        i = i + 1;
    }
    proof {
        assert(committer_rows(hashed@) =~= obfuscated_rows(committers@));
    }
    group_committer_sql_insert(hashed.as_slice())
}

} // verus!
