//! What a memory store holds, who may use it and what a write does to it.

use vstd::prelude::*;
use vstd::string::*;
use vstd::utf8;

use crate::bytes;
use crate::digest;
use crate::text;

verus! {

/// The roles of the memory policy.
#[derive(Debug, Clone, Copy, PartialEq, Eq, Structural)]
pub enum PrincipalRole {
    Reader,
    Agent,
    Orchestrator,
}

/// Who acts.
#[verifier::ext_equal]
pub struct Actor {
    pub id: Seq<char>,
    pub role: PrincipalRole,
}

/// Who owns a memory.
#[verifier::ext_equal]
pub enum Scope {
    Shared,
    Agent(Seq<char>),
}

/// One version of a memory.
#[verifier::ext_equal]
pub struct Record {
    pub path: Seq<char>,
    pub scope: Scope,
    pub version: u64,
    pub content: Seq<char>,
    pub content_hash: Seq<char>,
    pub written_by: Seq<char>,
    pub session_id: Seq<char>,
    pub sequence: u64,
    pub written_at_unix_ms: u128,
}

/// A requested write.
#[verifier::ext_equal]
pub struct Request {
    pub path: Seq<char>,
    pub scope: Scope,
    pub content: Seq<char>,
    pub session_id: Seq<char>,
    pub expected_hash: Option<Seq<char>>,
}

/// The versions of the memory at one path, oldest first.
#[verifier::ext_equal]
pub struct History {
    pub path: Seq<char>,
    pub records: Seq<Record>,
}

/// A store: histories in the order of their paths, and the number of writes.
#[verifier::ext_equal]
pub struct Store {
    pub histories: Seq<History>,
    pub sequence: u64,
}

/// Why a request is refused.
#[verifier::ext_equal]
pub enum Refusal {
    InvalidPrincipal,
    InvalidSession,
    InvalidPath,
    InvalidScope,
    Missing { path: Seq<char> },
    PermissionDenied { path: Seq<char> },
    PreconditionRequired { path: Seq<char>, actual_hash: Seq<char> },
    Conflict { path: Seq<char>, expected_hash: Seq<char>, actual_hash: Seq<char> },
    ScopeMismatch { path: Seq<char> },
    InvalidVersion { path: Seq<char>, version: u64 },
}

/// Identifiers are not empty and hold no NUL.
pub open spec fn valid_identifier(id: Seq<char>) -> bool {
    id.len() > 0 && !id.contains('\0')
}

/// The characters from `start` to `end` are what stands between two slashes, or
/// between a slash and the start or the end of the path.
pub open spec fn is_segment(path: Seq<char>, start: int, end: int) -> bool {
    &&& 0 <= start <= end <= path.len()
    &&& start == 0 || path[start - 1] == '/'
    &&& end == path.len() || path[end] == '/'
    &&& forall|i: int| start <= i < end ==> path[i] != '/'
}

/// A segment that names no file of its own: the empty one, `.` and `..`.
pub open spec fn ambiguous_segment(path: Seq<char>, start: int, end: int) -> bool {
    ||| start == end
    ||| end == start + 1 && path[start] == '.'
    ||| end == start + 2 && path[start] == '.' && path[start + 1] == '.'
}

/// Paths are relative and no segment of theirs is ambiguous.
pub open spec fn valid_path(path: Seq<char>) -> bool {
    &&& path.len() > 0
    &&& !path.contains('\0')
    &&& path[0] != '/'
    &&& forall|start: int, end: int| #[trigger]
        is_segment(path, start, end) ==> !ambiguous_segment(path, start, end)
}

/// A path that a store can hold: valid, and no longer than its length can be
/// counted.
pub open spec fn storable_path(path: Seq<char>) -> bool {
    valid_path(path) && utf8::encode_utf8(path).len() <= u64::MAX
}

/// A request that can be made of a store.
pub open spec fn valid_request(request: Request) -> bool {
    &&& storable_path(request.path)
    &&& valid_scope(request.scope)
    &&& valid_identifier(request.session_id)
}

/// Agents have identifiers.
pub open spec fn valid_scope(scope: Scope) -> bool {
    scope matches Scope::Agent(id) ==> valid_identifier(id)
}

/// Agents use the memory of their own; orchestrators use all memory.
pub open spec fn owns(actor: Actor, owner: Seq<char>) -> bool {
    ||| actor.role == PrincipalRole::Orchestrator
    ||| actor.role == PrincipalRole::Agent && actor.id == owner
}

/// Everybody reads shared memory.
pub open spec fn may_read(actor: Actor, scope: Scope) -> bool {
    match scope {
        Scope::Shared => true,
        Scope::Agent(owner) => owns(actor, owner),
    }
}

/// Only orchestrators write shared memory.
pub open spec fn may_write(actor: Actor, scope: Scope) -> bool {
    match scope {
        Scope::Shared => actor.role == PrincipalRole::Orchestrator,
        Scope::Agent(owner) => owns(actor, owner),
    }
}

/// The order of paths: that of their bytes.
pub open spec fn path_before(a: Seq<char>, b: Seq<char>) -> bool {
    text::lex_less(utf8::encode_utf8(a), utf8::encode_utf8(b))
}

/// The number of leading histories whose paths come before `path`.
pub open spec fn slot(histories: Seq<History>, path: Seq<char>) -> nat
    decreases histories.len(),
{
    if histories.len() > 0 && path_before(histories[0].path, path) {
        1 + slot(histories.drop_first(), path)
    } else {
        0
    }
}

/// Whether there is a history at `path`.
pub open spec fn has_history(histories: Seq<History>, path: Seq<char>) -> bool {
    slot(histories, path) < histories.len() && histories[slot(histories, path) as int].path == path
}

/// The versions of the memory at `path`.
pub open spec fn records_at(histories: Seq<History>, path: Seq<char>) -> Seq<Record> {
    if has_history(histories, path) {
        histories[slot(histories, path) as int].records
    } else {
        seq![]
    }
}

/// Histories with one at `path`, an empty one if there was none.
pub open spec fn opened(histories: Seq<History>, path: Seq<char>) -> Seq<History> {
    if has_history(histories, path) {
        histories
    } else {
        histories.insert(slot(histories, path) as int, History { path, records: seq![] })
    }
}

/// Histories with one more version at `path`.
pub open spec fn appended(histories: Seq<History>, path: Seq<char>, record: Record) -> Seq<
    History,
> {
    let records = records_at(histories, path).push(record);
    opened(histories, path).update(slot(histories, path) as int, History { path, records })
}

/// Counts on, as far as the number goes.
pub open spec fn next_number(value: u64) -> u64 {
    if value < u64::MAX {
        (value + 1) as u64
    } else {
        value
    }
}

/// Why a write is refused.
///
/// Without an expected hash a write creates a memory but replaces none; with
/// one it goes through only if the hash is that of the current version. The
/// empty hash stands for no version.
pub open spec fn write_refusal(histories: Seq<History>, actor: Actor, request: Request) -> Option<
    Refusal,
> {
    let path = request.path;
    let records = records_at(histories, path);
    if !may_write(actor, request.scope) {
        Some(Refusal::PermissionDenied { path })
    } else if records.len() > 0 {
        let head = records.last();
        if head.scope != request.scope {
            Some(Refusal::ScopeMismatch { path })
        } else {
            match request.expected_hash {
                None => Some(
                    Refusal::PreconditionRequired { path, actual_hash: head.content_hash },
                ),
                Some(expected_hash) => if expected_hash != head.content_hash {
                    Some(
                        Refusal::Conflict { path, expected_hash, actual_hash: head.content_hash },
                    )
                } else {
                    None
                },
            }
        }
    } else {
        match request.expected_hash {
            Some(expected_hash) if expected_hash.len() > 0 => Some(
                Refusal::Conflict { path, expected_hash, actual_hash: seq![] },
            ),
            _ => None,
        }
    }
}

/// The version that a write makes.
pub open spec fn written_record(store: Store, actor: Actor, request: Request, time: u128) -> Record {
    let records = records_at(store.histories, request.path);
    Record {
        path: request.path,
        scope: request.scope,
        version: if records.len() > 0 {
            next_number(records.last().version)
        } else {
            1
        },
        content: request.content,
        content_hash: digest::digest_text_of(utf8::encode_utf8(request.content)),
        written_by: actor.id,
        session_id: request.session_id,
        sequence: next_number(store.sequence),
        written_at_unix_ms: time,
    }
}

/// The store after a write at a given time. A write that is refused leaves it as
/// it is.
pub open spec fn store_after_write(store: Store, actor: Actor, request: Request, time: u128) -> Store {
    match write_refusal(store.histories, actor, request) {
        Some(_) => store,
        None => Store {
            histories: appended(
                store.histories,
                request.path,
                written_record(store, actor, request, time),
            ),
            sequence: next_number(store.sequence),
        },
    }
}

/// What a write at a given time answers.
pub open spec fn write_answer(
    store: Store,
    actor: Actor,
    request: Request,
    time: u128,
) -> Result<Record, Refusal> {
    match write_refusal(store.histories, actor, request) {
        Some(refusal) => Err(refusal),
        None => Ok(written_record(store, actor, request, time)),
    }
}

/// What reading the current version at `path` answers.
pub open spec fn read_answer(store: Store, actor: Actor, path: Seq<char>) -> Result<
    Record,
    Refusal,
> {
    let records = records_at(store.histories, path);
    if !valid_path(path) {
        Err(Refusal::InvalidPath)
    } else if records.len() == 0 {
        Err(Refusal::Missing { path })
    } else if !may_read(actor, records.last().scope) {
        Err(Refusal::PermissionDenied { path })
    } else {
        Ok(records.last())
    }
}

/// The first of the records that has a given version.
pub open spec fn version_index(records: Seq<Record>, version: u64) -> Option<int>
    decreases records.len(),
{
    if records.len() == 0 {
        None
    } else if records[0].version == version {
        Some(0)
    } else {
        match version_index(records.drop_first(), version) {
            Some(index) => Some(index + 1),
            None => None,
        }
    }
}

/// What reading a given version at `path` answers.
pub open spec fn read_version_answer(
    store: Store,
    actor: Actor,
    path: Seq<char>,
    version: u64,
) -> Result<Record, Refusal> {
    let records = records_at(store.histories, path);
    if records.len() == 0 {
        Err(Refusal::Missing { path })
    } else {
        match version_index(records, version) {
            None => Err(Refusal::InvalidVersion { path, version }),
            Some(index) => if may_read(actor, records[index].scope) {
                Ok(records[index])
            } else {
                Err(Refusal::PermissionDenied { path })
            },
        }
    }
}

/// What reading the history at `path` answers.
pub open spec fn history_answer(store: Store, actor: Actor, path: Seq<char>) -> Result<
    Seq<Record>,
    Refusal,
> {
    let records = records_at(store.histories, path);
    if records.len() == 0 {
        Err(Refusal::Missing { path })
    } else if !may_read(actor, records.last().scope) {
        Err(Refusal::PermissionDenied { path })
    } else {
        Ok(records)
    }
}

/// What the current version of a history contributes to the state hash.
pub open spec fn head_bytes(history: History) -> Seq<u8> {
    if history.records.len() == 0 {
        seq![]
    } else {
        let path = utf8::encode_utf8(history.path);
        let head = history.records.last();
        bytes::le_bytes(path.len(), 8) + path + utf8::encode_utf8(head.content_hash) + bytes::le_bytes(
            head.version as nat,
            8,
        )
    }
}

/// What the current versions of a store contribute to its state hash.
pub open spec fn state_bytes(histories: Seq<History>) -> Seq<u8>
    decreases histories.len(),
{
    if histories.len() == 0 {
        seq![]
    } else {
        state_bytes(histories.drop_last()) + head_bytes(histories.last())
    }
}

/// The state hash of a store.
pub open spec fn state_hash_of(store: Store) -> Seq<char> {
    digest::digest_text_of(state_bytes(store.histories))
}

/// The numbers of the writes that made two versions come in order, as far as
/// the number goes.
pub open spec fn sequences_ordered(earlier: Record, later: Record) -> bool {
    &&& earlier.sequence <= later.sequence
    &&& earlier.sequence < u64::MAX ==> earlier.sequence < later.sequence
}

/// A history as writes make it: at least one version, one scope, versions that
/// count from one, writes in order, and the hash of each content.
pub open spec fn valid_history(history: History, sequence: u64) -> bool {
    &&& storable_path(history.path)
    &&& history.records.len() > 0
    &&& forall|i: int|
        0 <= i < history.records.len() ==> {
            let record = #[trigger] history.records[i];
            &&& record.path == history.path
            &&& record.scope == history.records[0].scope
            &&& valid_scope(record.scope)
            &&& i < u64::MAX ==> record.version == i + 1
            &&& record.content_hash == digest::digest_text_of(utf8::encode_utf8(record.content))
            &&& record.content_hash.len() == 71
            &&& 1 <= record.sequence <= sequence
        }
    &&& forall|i: int, j: int|
        0 <= i < j < history.records.len() ==> sequences_ordered(
            #[trigger] history.records[i],
            #[trigger] history.records[j],
        )
}

/// The paths come in order, each once.
pub open spec fn paths_sorted(histories: Seq<History>) -> bool {
    forall|i: int, j: int|
        0 <= i < j < histories.len() ==> path_before(
            (#[trigger] histories[i]).path,
            (#[trigger] histories[j]).path,
        )
}

/// A store as writes make it.
pub open spec fn valid_store(store: Store) -> bool {
    &&& paths_sorted(store.histories)
    &&& forall|i: int|
        0 <= i < store.histories.len() ==> valid_history(
            #[trigger] store.histories[i],
            store.sequence,
        )
}

} // verus!
