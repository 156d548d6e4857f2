//! What is on disk: where the databases lie, which schema they have, and how
//! rows are read.

use crate::engine::types::{
    Execution, ExecutionStatus, ExecutionView, ExecutionWithQueueConfig,
    ExecutionWithQueueConfigView, JobQueue, JobQueueView, StoreError, StoreErrorView,
    bytes_view, parsed_status, text_view,
};
use crate::persistence::queues::out_of_range_text;
use crate::text::{
    chars_of, concat, concat3, decimal, decimal_text, ends_with, find_last, finishes_with,
    last_position, lemma_last_position, same_text, signed_decimal, signed_decimal_text, text_of,
};
use vstd::prelude::*;

verus! {

/// A path without the separators and the `.` components at its end.
pub open spec fn trimmed_path(path: Seq<char>) -> Seq<char>
    decreases path.len(),
{
    if path.len() > 1 && path.last() == '/' {
        trimmed_path(path.drop_last())
    } else if path.len() > 1 && path.last() == '.' && path[path.len() - 2] == '/' {
        trimmed_path(path.drop_last())
    } else {
        path
    }
}

/// What follows the last separator of a path.
pub open spec fn last_component(path: Seq<char>) -> Seq<char> {
    path.skip(last_position(path, '/') + 1)
}

/// Whether a component names a file.
pub open spec fn names_file(component: Seq<char>) -> bool {
    component.len() > 0 && component != "."@ && component != ".."@
}

/// A file name without its extension. A dot in front begins none.
pub open spec fn stem_of(name: Seq<char>) -> Seq<char> {
    if last_position(name, '.') <= 0 {
        name
    } else {
        name.take(last_position(name, '.'))
    }
}

/// `name` in the directory `parent`.
pub open spec fn path_in(parent: Seq<char>, name: Seq<char>) -> Seq<char> {
    if parent.len() == 0 || parent.last() == '/' {
        parent + name
    } else {
        parent + "/"@ + name
    }
}

/// The name of the results database that goes with an ingest database.
pub open spec fn results_name(stem: Seq<char>) -> Seq<char> {
    let base = if finishes_with(stem, "-ingest"@) {
        stem.take(stem.len() - "-ingest"@.len())
    } else {
        stem
    };
    base + "-results.db"@
}

/// Where the results database lies that goes with the ingest database at
/// `ingest`: beside it, under a name derived from its own.
pub open spec fn results_path(ingest: Seq<char>) -> Seq<char> {
    let path = trimmed_path(ingest);
    let name = last_component(path);
    if names_file(name) {
        path_in(
            trimmed_path(path.take(last_position(path, '/') + 1)),
            results_name(stem_of(name)),
        )
    } else {
        path_in(ingest, results_name("maqistor"@))
    }
}

/// The length of `chars[..end]` without the separators and the `.` components
/// at its end.
fn trimmed_len(chars: &Vec<char>, end: usize) -> (r: usize)
    requires
        end <= chars@.len(),
    ensures
        r <= end,
        trimmed_path(chars@.take(end as int)) == chars@.take(r as int),
{
    let mut to: usize = end;
    while to > 1 && (chars[to - 1] == '/' || (chars[to - 1] == '.' && chars[to - 2] == '/'))
        invariant
            to <= end <= chars@.len(),
            trimmed_path(chars@.take(end as int)) == trimmed_path(chars@.take(to as int)),
        decreases to,
    {
        proof {
            assert(chars@.take(to as int).drop_last() =~= chars@.take(to - 1));
        }
        to -= 1;
    }
    to
}

/// `name` in the directory `parent`.
fn push_path(parent: &str, name: &str) -> (r: String)
    ensures
        r@ == path_in(parent@, name@),
{
    let chars = chars_of(parent);
    if chars.len() == 0 || chars[chars.len() - 1] == '/' {
        concat(parent, name)
    } else {
        concat3(parent, "/", name)
    }
}

/// The name of the results database that goes with an ingest database.
fn results_file_name(stem: &str) -> (r: String)
    ensures
        r@ == results_name(stem@),
{
    if ends_with(stem, "-ingest") {
        let chars = chars_of(stem);
        let suffix = chars_of("-ingest");
        let base = text_of(&chars, 0, chars.len() - suffix.len());
        proof {
            assert(base@ =~= stem@.take(stem@.len() - "-ingest"@.len()));
        }
        concat(base.as_str(), "-results.db")
    } else {
        concat(stem, "-results.db")
    }
}

/// Where the results database lies that goes with the ingest database at
/// `ingest`.
pub fn default_results_path(ingest: &str) -> (r: String)
    ensures
        r@ == results_path(ingest@),
{
    let chars = chars_of(ingest);
    proof {
        assert(chars@.take(chars@.len() as int) =~= chars@);
        lemma_last_position(trimmed_path(ingest@), '/');
    }
    let end = trimmed_len(&chars, chars.len());
    let path = text_of(&chars, 0, end);
    let path_chars = chars_of(path.as_str());
    proof {
        assert(path@ =~= chars@.take(end as int));
    }
    let from: usize = match find_last(&path_chars, '/') {
        Some(at) => at + 1,
        None => 0,
    };
    let name = text_of(&path_chars, from, path_chars.len());
    proof {
        assert(name@ =~= last_component(path@));
    }
    if name.as_str().is_empty() || same_text(name.as_str(), ".") || same_text(name.as_str(), "..") {
        let file = results_file_name("maqistor");
        return push_path(ingest, file.as_str());
    }
    let name_chars = chars_of(name.as_str());
    proof {
        lemma_last_position(name@, '.');
    }
    let stem = match find_last(&name_chars, '.') {
        Some(at) => if at == 0 {
            name
        } else {
            let stem = text_of(&name_chars, 0, at);
            proof {
                assert(stem@ =~= name@.take(at as int));
            }
            stem
        },
        None => name,
    };
    let file = results_file_name(stem.as_str());
    let parent_end = trimmed_len(&path_chars, from);
    let parent = text_of(&path_chars, 0, parent_end);
    proof {
        assert(parent@ =~= path_chars@.take(parent_end as int));
    }
    push_path(parent.as_str(), file.as_str())
}

/// The schema that this code reads and writes.
pub const SCHEMA_VERSION: i32 = 1;

/// What is said of a schema of another version.
pub open spec fn unsupported_schema_text(version: int) -> Seq<char> {
    "unsupported database schema version "@ + signed_decimal(version)
        + "; expected 1 — delete the database file and restart"@
}

/// Whether the schema has to be set up, given the version on record: it has to
/// where there is none. A version other than the present one is refused.
pub fn needs_schema(version: Option<i32>) -> (r: Result<bool, StoreError>)
    ensures
        match r {
            Ok(needed) => needed == (version is None || version == Some(-1i32)) && (!needed
                ==> version == Some(SCHEMA_VERSION)),
            Err(error) => {
                &&& version is Some
                &&& version->Some_0 != -1
                &&& version->Some_0 != SCHEMA_VERSION
                &&& error@ == StoreErrorView::Internal(
                    unsupported_schema_text(version->Some_0 as int),
                )
            },
        },
{
    match version {
        None => Ok(true),
        Some(version) => if version == -1 {
            Ok(true)
        } else if version != SCHEMA_VERSION {
            let digits = signed_decimal_text(version as i64);
            Err(
                StoreError::Internal(
                    concat3(
                        "unsupported database schema version ",
                        digits.as_str(),
                        "; expected 1 — delete the database file and restart",
                    ),
                ),
            )
        } else {
            Ok(false)
        },
    }
}

/// A queue as its columns hold it.
pub struct RawQueue {
    pub name: String,
    pub max_retries: i64,
    pub timeout_secs: i64,
    pub created_at: i64,
    pub updated_at: i64,
}

/// An attempt as its columns hold it.
pub struct RawExecution {
    pub id: i64,
    pub job_id: i64,
    pub queue_name: String,
    pub status: String,
    pub execution_count: i64,
    pub lease_expires_at: Option<i64>,
    pub dispatch_id: String,
    pub result_payload: Option<Vec<u8>>,
    pub result_error: Option<String>,
    pub created_at: i64,
    pub updated_at: i64,
}

/// What is said of a column that cannot be read.
pub open spec fn conversion_text(kind: Seq<char>, index: int, reason: Seq<char>) -> Seq<char> {
    "Conversion error from type "@ + kind + " at index: "@ + decimal(index as nat) + ", "@ + reason
}

/// What is said of a column that cannot be read.
pub fn conversion_error_text(kind: &str, index: usize, reason: &str) -> (r: String)
    ensures
        r@ == conversion_text(kind@, index as int, reason@),
{
    let digits = decimal_text(index as u64);
    let mut message = concat3("Conversion error from type ", kind, " at index: ");
    message.append(digits.as_str());
    message.append(", ");
    message.append(reason);
    message
}

/// The error for a column that cannot be read.
fn conversion_error(kind: &str, index: usize, reason: &str) -> (r: StoreError)
    ensures
        r@ == StoreErrorView::Internal(conversion_text(kind@, index as int, reason@)),
{
    StoreError::Internal(conversion_error_text(kind, index, reason))
}

/// The error for a number that does not fit.
fn range_error(index: usize) -> (r: StoreError)
    ensures
        r@ == StoreErrorView::Internal(
            conversion_text("Integer"@, index as int, out_of_range_text()),
        ),
{
    conversion_error("Integer", index, "out of range integral type conversion attempted")
}

/// What reading a queue whose columns start at `offset` comes to.
pub open spec fn read_queue(raw: RawQueue, offset: int) -> Result<JobQueueView, StoreErrorView> {
    if raw.max_retries < 0 || raw.max_retries > u32::MAX {
        Err(
            StoreErrorView::Internal(
                conversion_text("Integer"@, offset + 1, out_of_range_text()),
            ),
        )
    } else if raw.timeout_secs < 0 {
        Err(
            StoreErrorView::Internal(
                conversion_text("Integer"@, offset + 2, out_of_range_text()),
            ),
        )
    } else {
        Ok(
            JobQueueView {
                name: raw.name@,
                max_retries: raw.max_retries as int,
                timeout_secs: raw.timeout_secs as int,
                created_at: raw.created_at as int,
                updated_at: raw.updated_at as int,
            },
        )
    }
}

/// Reads a queue whose columns start at `offset`.
pub fn row_to_queue_at(raw: RawQueue, offset: usize) -> (r: Result<JobQueue, StoreError>)
    requires
        offset + 4 <= usize::MAX,
    ensures
        match (r, read_queue(raw, offset as int)) {
            (Ok(queue), Ok(expected)) => queue@ == expected,
            (Err(error), Err(expected)) => error@ == expected,
            _ => false,
        },
{
    if raw.max_retries < 0 || raw.max_retries > u32::MAX as i64 {
        return Err(range_error(offset + 1));
    }
    if raw.timeout_secs < 0 {
        return Err(range_error(offset + 2));
    }
    Ok(
        JobQueue {
            name: raw.name,
            max_retries: raw.max_retries as u32,
            timeout_secs: raw.timeout_secs as u64,
            created_at: raw.created_at,
            updated_at: raw.updated_at,
        },
    )
}

/// What reading an attempt whose columns start at `offset` comes to.
pub open spec fn read_execution(raw: RawExecution, offset: int) -> Result<
    ExecutionView,
    StoreErrorView,
> {
    match parsed_status(raw.status@) {
        None => Err(
            StoreErrorView::Internal(
                conversion_text(
                    "Text"@,
                    offset + 3,
                    "unknown execution status: "@ + raw.status@,
                ),
            ),
        ),
        Some(status) => if raw.execution_count < 0 || raw.execution_count > u32::MAX {
            Err(
                StoreErrorView::Internal(
                    conversion_text("Integer"@, offset + 4, out_of_range_text()),
                ),
            )
        } else {
            Ok(
                ExecutionView {
                    id: raw.id as int,
                    job_id: raw.job_id as int,
                    queue_name: raw.queue_name@,
                    status,
                    execution_count: raw.execution_count as int,
                    lease_expires_at: raw.lease_expires_at,
                    dispatch_id: raw.dispatch_id@,
                    result_payload: bytes_view(raw.result_payload),
                    result_error: text_view(raw.result_error),
                    created_at: raw.created_at as int,
                    updated_at: raw.updated_at as int,
                },
            )
        },
    }
}

/// Reads an attempt whose columns start at `offset`.
pub fn row_to_execution_at(raw: RawExecution, offset: usize) -> (r: Result<Execution, StoreError>)
    requires
        offset + 4 <= usize::MAX,
    ensures
        match (r, read_execution(raw, offset as int)) {
            (Ok(execution), Ok(expected)) => execution@ == expected,
            (Err(error), Err(expected)) => error@ == expected,
            _ => false,
        },
{
    let status = match ExecutionStatus::parse(raw.status.as_str()) {
        Some(status) => status,
        None => {
            let reason = concat("unknown execution status: ", raw.status.as_str());
            return Err(conversion_error("Text", offset + 3, reason.as_str()));
        },
    };
    if raw.execution_count < 0 || raw.execution_count > u32::MAX as i64 {
        return Err(range_error(offset + 4));
    }
    Ok(
        Execution {
            id: raw.id,
            job_id: raw.job_id,
            queue_name: raw.queue_name,
            status,
            execution_count: raw.execution_count as u32,
            lease_expires_at: raw.lease_expires_at,
            dispatch_id: raw.dispatch_id,
            result_payload: raw.result_payload,
            result_error: raw.result_error,
            created_at: raw.created_at,
            updated_at: raw.updated_at,
        },
    )
}

/// Reads an attempt together with its queue, whose columns follow.
pub fn row_to_execution_with_queue_config(raw: RawExecution, queue: RawQueue) -> (r: Result<
    ExecutionWithQueueConfig,
    StoreError,
>)
    ensures
        match (r, read_execution(raw, 0), read_queue(queue, 11)) {
            (Ok(row), Ok(execution), Ok(config)) => row@ == (ExecutionWithQueueConfigView {
                execution,
                queue: config,
            }),
            (Err(error), Err(expected), _) => error@ == expected,
            (Err(error), Ok(_), Err(expected)) => error@ == expected,
            _ => false,
        },
{
    let execution = match row_to_execution_at(raw, 0) {
        Ok(execution) => execution,
        Err(error) => {
            return Err(error);
        },
    };
    match row_to_queue_at(queue, 11) {
        Ok(queue) => Ok(ExecutionWithQueueConfig { execution, queue }),
        Err(error) => Err(error),
    }
}

/// A queue is read exactly if its numbers are in range, and is then what its
/// columns hold.
pub proof fn queues_are_read_column_by_column(raw: RawQueue, offset: int)
    ensures
        match read_queue(raw, offset) {
            Ok(queue) => {
                &&& 0 <= raw.max_retries <= u32::MAX
                &&& 0 <= raw.timeout_secs
                &&& queue.name == raw.name@
                &&& queue.max_retries == raw.max_retries
                &&& queue.timeout_secs == raw.timeout_secs
                &&& queue.created_at == raw.created_at
                &&& queue.updated_at == raw.updated_at
            },
            Err(_) => !(0 <= raw.max_retries <= u32::MAX && 0 <= raw.timeout_secs),
        },
{
}

/// An attempt is read exactly if its status is one of the four and its count is
/// in range, and is then what its columns hold.
pub proof fn attempts_are_read_column_by_column(raw: RawExecution, offset: int)
    ensures
        match read_execution(raw, offset) {
            Ok(attempt) => {
                &&& 0 <= raw.execution_count <= u32::MAX
                &&& attempt.id == raw.id
                &&& attempt.job_id == raw.job_id
                &&& attempt.queue_name == raw.queue_name@
                &&& attempt.status == ExecutionStatus::Pending ==> raw.status@ == "pending"@
                &&& attempt.status == ExecutionStatus::Running ==> raw.status@ == "running"@
                &&& attempt.status == ExecutionStatus::Completed ==> raw.status@ == "completed"@
                &&& attempt.status == ExecutionStatus::Failed ==> raw.status@ == "failed"@
                &&& attempt.execution_count == raw.execution_count
                &&& attempt.lease_expires_at == raw.lease_expires_at
                &&& attempt.dispatch_id == raw.dispatch_id@
                &&& attempt.result_payload is Some == raw.result_payload is Some
                &&& raw.result_payload is Some ==> attempt.result_payload->Some_0
                    == raw.result_payload->Some_0@
                &&& attempt.result_error is Some == raw.result_error is Some
                &&& raw.result_error is Some ==> attempt.result_error->Some_0
                    == raw.result_error->Some_0@
                &&& attempt.created_at == raw.created_at
                &&& attempt.updated_at == raw.updated_at
            },
            Err(_) => {
                ||| !(0 <= raw.execution_count <= u32::MAX)
                ||| raw.status@ != "pending"@ && raw.status@ != "running"@ && raw.status@
                    != "completed"@ && raw.status@ != "failed"@
            },
        },
{
}

/// The place of a character with none after it is its last position.
proof fn lemma_is_last_position(text: Seq<char>, c: char, at: int)
    requires
        -1 <= at < text.len(),
        at >= 0 ==> text[at] == c,
        forall|k: int| at < k < text.len() ==> text[k] != c,
    ensures
        last_position(text, c) == at,
{
    lemma_last_position(text, c);
}

/// The results database lies beside the ingest database: `NAME-ingest.db` goes
/// with `NAME-results.db` in the same directory.
pub proof fn databases_lie_side_by_side(directory: Seq<char>, name: Seq<char>)
    requires
        directory.len() > 1,
        directory.last() != '/',
        !(directory.last() == '.' && directory[directory.len() - 2] == '/'),
        name.len() > 0,
        forall|k: int| 0 <= k < name.len() ==> name[k] != '/' && name[k] != '.',
    ensures
        results_path(directory + "/"@ + name + "-ingest.db"@) == directory + "/"@ + name
            + "-results.db"@,
{
    reveal_strlit("/");
    reveal_strlit(".");
    reveal_strlit("..");
    reveal_strlit("-ingest.db");
    reveal_strlit("-ingest");
    reveal_strlit("-results.db");
    let file = name + "-ingest.db"@;
    let path = directory + "/"@ + name + "-ingest.db"@;
    let d = directory.len() as int;
    assert(path =~= directory + "/"@ + file);
    assert(path.last() == 'b');
    assert(trimmed_path(path) == path);
    assert forall|k: int| 0 <= k < file.len() implies file[k] != '/' by {
        if k >= name.len() {
            assert(file[k] == "-ingest.db"@[k - name.len()]);
        }
    }
    assert forall|k: int| d < k < path.len() implies path[k] != '/' by {
        assert(path[k] == file[k - d - 1]);
    }
    lemma_is_last_position(path, '/', d);
    assert(last_component(path) =~= file);
    assert(file.last() == 'b');
    assert("."@.last() == '.');
    assert(".."@.last() == '.');
    assert(names_file(file));
    let dot = name.len() as int + 7;
    assert forall|k: int| dot < k < file.len() implies file[k] != '.' by {
        assert(file[k] == "-ingest.db"@[k - name.len()]);
    }
    lemma_is_last_position(file, '.', dot);
    let stem = name + "-ingest"@;
    assert(stem_of(file) =~= stem);
    assert(stem.skip(name.len() as int) =~= "-ingest"@);
    assert(finishes_with(stem, "-ingest"@));
    assert(stem.take(name.len() as int) =~= name);
    assert(results_name(stem) =~= name + "-results.db"@);
    let parent = path.take(d + 1);
    assert(parent =~= directory.push('/'));
    assert(parent.drop_last() =~= directory);
    assert(trimmed_path(parent) == trimmed_path(directory));
    assert(trimmed_path(directory) == directory);
    assert(directory + "/"@ + (name + "-results.db"@) =~= directory + "/"@ + name
        + "-results.db"@);
}

} // verus!
