//! Who may use what memory, and what a read and a write come to.

use vstd::prelude::*;
use vstd::utf8;

use crate::digest;
use crate::gguf::writing;
use crate::memory::clock;
use crate::memory::laws;
use crate::memory::model;
use crate::memory::model::{Actor, PrincipalRole, Record, Refusal, Request, Scope, Store};
use crate::memory::store::{entry_result, MemoryStore};
use crate::memory::types::{MemoryEntry, MemoryError, MemoryScope, MemoryWrite, Principal};
use crate::text_laws;

verus! {

/// The versions of the memory at a path, in a store that has it.
pub open spec fn holds(store: Store, path: Seq<char>, records: Seq<Record>) -> bool {
    exists|i: int|
        0 <= i < store.histories.len() && (#[trigger] store.histories[i]).path == path
            && store.histories[i].records == records
}

/// A store has no memory at a path.
pub open spec fn lacks(store: Store, path: Seq<char>) -> bool {
    forall|i: int| 0 <= i < store.histories.len() ==> (#[trigger] store.histories[i]).path != path
}

/// Memory is read by everybody if it is shared, by the agent that it belongs to and
/// by orchestrators.
pub open spec fn reads(actor: Actor, scope: Scope) -> bool {
    ||| scope == Scope::Shared
    ||| scope == Scope::Agent(actor.id) && actor.role == PrincipalRole::Agent
    ||| actor.role == PrincipalRole::Orchestrator
}

/// Memory is written by the agent that it belongs to and by orchestrators.
pub open spec fn writes(actor: Actor, scope: Scope) -> bool {
    ||| scope == Scope::Agent(actor.id) && actor.role == PrincipalRole::Agent
    ||| actor.role == PrincipalRole::Orchestrator
}

proof fn lemma_holds(store: Store, path: Seq<char>, records: Seq<Record>)
    requires
        model::valid_store(store),
    ensures
        holds(store, path, records) ==> model::records_at(store.histories, path) == records
            && records.len() > 0 && model::has_history(store.histories, path),
        lacks(store, path) ==> model::records_at(store.histories, path).len() == 0,
{
    laws::lemma_slot(store.histories, path);
    if holds(store, path, records) {
        let i = choose|i: int|
            0 <= i < store.histories.len() && (#[trigger] store.histories[i]).path == path
                && store.histories[i].records == records;
        assert(i == model::slot(store.histories, path));
        assert(model::valid_history(store.histories[i], store.sequence));
    }
}

/// A read gives the latest version at a path to those who may read it, and is
/// refused to others. Where there is no memory, nothing is read.
pub proof fn law_reads_give_the_latest_version(
    memory: &MemoryStore,
    principal: &Principal,
    path: &str,
    result: Result<MemoryEntry, MemoryError>,
    records: Seq<Record>,
)
    requires
        call_ensures(MemoryStore::read, (memory, principal, path), result),
    ensures
        holds(memory@, path@, records) ==> match result {
            Ok(entry) => entry@ == records[records.len() - 1] && reads(
                principal@,
                records[0].scope,
            ),
            Err(error) => !reads(principal@, records[0].scope) && error@
                == (Refusal::PermissionDenied { path: path@ }),
        },
        lacks(memory@, path@) ==> result is Err,
{
    lemma_holds(memory@, path@, records);
    if holds(memory@, path@, records) {
        laws::lemma_records_valid(memory@, path@);
        assert(records.last() == records[records.len() - 1]);
        assert(records[records.len() - 1].scope == records[0].scope);
    }
}

proof fn lemma_version(records: Seq<Record>, from: int, version: u64)
    requires
        0 <= from <= records.len() < u64::MAX,
        forall|i: int| 0 <= i < records.len() ==> (#[trigger] records[i]).version == i + 1,
        version > from || version == 0,
    ensures
        model::version_index(records.skip(from), version) == if 1 <= version <= records.len() {
            Some(version - 1 - from)
        } else {
            None
        },
    decreases records.len() - from,
{
    let rest = records.skip(from);
    if from < records.len() {
        assert(rest[0] == records[from]);
        assert(rest.drop_first() =~= records.skip(from + 1));
        if version != from + 1 {
            lemma_version(records, from + 1, version);
        }
    }
}

/// A version is read by its number, which counts from one.
pub proof fn law_versions_are_read_by_number(
    memory: &MemoryStore,
    principal: &Principal,
    path: &str,
    version: u64,
    result: Result<MemoryEntry, MemoryError>,
    records: Seq<Record>,
)
    requires
        call_ensures(MemoryStore::read_version, (memory, principal, path, version), result),
        holds(memory@, path@, records),
        records.len() < u64::MAX,
    ensures
        result is Ok <==> 1 <= version <= records.len() && reads(principal@, records[0].scope),
        result matches Ok(entry) ==> entry@ == records[version - 1],
        !(1 <= version <= records.len()) ==> (result matches Err(error) && error@
            == (Refusal::InvalidVersion { path: path@, version })),
{
    lemma_holds(memory@, path@, records);
    laws::lemma_records_valid(memory@, path@);
    let history = model::History { path: path@, records };
    assert forall|i: int| 0 <= i < records.len() implies (#[trigger] records[i]).version == i
        + 1 by {
        assert(history.records[i].version == i + 1);
    }
    assert(records.skip(0) =~= records);
    lemma_version(records, 0, version);
    if 1 <= version <= records.len() {
        assert(history.records[version - 1].scope == history.records[0].scope);
    }
}

/// A history gives all versions, the oldest first, to those who may read them.
pub proof fn law_histories_give_all_versions(
    memory: &MemoryStore,
    principal: &Principal,
    path: &str,
    result: Result<Vec<MemoryEntry>, MemoryError>,
    records: Seq<Record>,
)
    requires
        call_ensures(MemoryStore::history, (memory, principal, path), result),
        holds(memory@, path@, records),
    ensures
        result is Ok <==> reads(principal@, records[0].scope),
        result matches Ok(entries) ==> {
            &&& entries@.len() == records.len()
            &&& forall|i: int| 0 <= i < records.len() ==> (#[trigger] entries@[i])@ == records[i]
        },
{
    lemma_holds(memory@, path@, records);
    laws::lemma_records_valid(memory@, path@);
    let history = model::History { path: path@, records };
    assert(history.records[records.len() - 1].scope == history.records[0].scope);
    if let Ok(entries) = result {
        let views = entries@.map_values(|entry: MemoryEntry| entry@);
        assert(views == records);
        assert(entries@.len() == records.len());
        assert forall|i: int| 0 <= i < records.len() implies (#[trigger] entries@[i])@
            == records[i] by {
            assert(views[i] == entries@[i]@);
        }
    }
}

/// A write where there is no memory goes through for those who may write it, if
/// they expect none.
pub proof fn law_first_writes(
    memory: Store,
    actor: Actor,
    request: Request,
    time: u128,
)
    requires
        model::valid_store(memory),
        lacks(memory, request.path),
    ensures
        model::write_answer(memory, actor, request, time) is Ok <==> writes(actor, request.scope)
            && (request.expected_hash is None || request.expected_hash->0.len() == 0),
        model::write_answer(memory, actor, request, time) matches Ok(record) ==> {
            &&& record.version == 1
            &&& records_request(memory, actor, request, time, record)
        },
        !writes(actor, request.scope) ==> model::write_answer(memory, actor, request, time)
            == Err::<Record, Refusal>(Refusal::PermissionDenied { path: request.path }),
        writes(actor, request.scope) && request.expected_hash is Some
            && request.expected_hash->0.len() > 0 ==> model::write_answer(
            memory,
            actor,
            request,
            time,
        ) == Err::<Record, Refusal>(
            Refusal::Conflict {
                path: request.path,
                expected_hash: request.expected_hash->0,
                actual_hash: seq![],
            },
        ),
{
    lemma_holds(memory, request.path, seq![]);
}

/// A later write goes through for those who may write the memory, if they leave it
/// to whom it belongs and state the hash of its latest version.
pub proof fn law_later_writes(
    memory: Store,
    actor: Actor,
    request: Request,
    time: u128,
    records: Seq<Record>,
)
    requires
        model::valid_store(memory),
        holds(memory, request.path, records),
        records.len() < u64::MAX,
    ensures
        model::write_answer(memory, actor, request, time) is Ok <==> {
            &&& writes(actor, request.scope)
            &&& request.scope == records[0].scope
            &&& request.expected_hash == Some(records[records.len() - 1].content_hash)
        },
        model::write_answer(memory, actor, request, time) matches Ok(record) ==> {
            &&& record.version == records.len() + 1
            &&& records_request(memory, actor, request, time, record)
        },
        !writes(actor, request.scope) ==> model::write_answer(memory, actor, request, time)
            == Err::<Record, Refusal>(Refusal::PermissionDenied { path: request.path }),
        writes(actor, request.scope) && request.scope != records[0].scope ==> model::write_answer(
            memory,
            actor,
            request,
            time,
        ) == Err::<Record, Refusal>(Refusal::ScopeMismatch { path: request.path }),
        writes(actor, request.scope) && request.scope == records[0].scope
            && request.expected_hash is None ==> model::write_answer(memory, actor, request, time)
            == Err::<Record, Refusal>(
            Refusal::PreconditionRequired {
                path: request.path,
                actual_hash: records[records.len() - 1].content_hash,
            },
        ),
        writes(actor, request.scope) && request.scope == records[0].scope
            && request.expected_hash is Some && request.expected_hash->0 != records[records.len()
            - 1].content_hash ==> model::write_answer(memory, actor, request, time) == Err::<
            Record,
            Refusal,
        >(
            Refusal::Conflict {
                path: request.path,
                expected_hash: request.expected_hash->0,
                actual_hash: records[records.len() - 1].content_hash,
            },
        ),
{
    lemma_holds(memory, request.path, records);
    laws::lemma_records_valid(memory, request.path);
    let history = model::History { path: request.path, records };
    assert(history.records[records.len() - 1].scope == history.records[0].scope);
    assert(history.records[records.len() - 1].version == records.len());
    assert(records.last() == records[records.len() - 1]);
}

/// A version holds what was asked to be written, by whom and when.
pub open spec fn records_request(
    memory: Store,
    actor: Actor,
    request: Request,
    time: u128,
    record: Record,
) -> bool {
    &&& record.path == request.path
    &&& record.scope == request.scope
    &&& record.content == request.content
    &&& record.written_by == actor.id
    &&& record.session_id == request.session_id
    &&& record.written_at_unix_ms == time
    &&& memory.sequence < u64::MAX ==> record.sequence == memory.sequence + 1
    &&& record.content_hash == "sha256:"@ + digest::hex_of(
        digest::sha256_of(utf8::encode_utf8(request.content))@,
    )
}

/// Principals have the role and the name that they were made with. A name is not
/// empty and holds no NUL.
pub proof fn law_principals_keep_their_names(
    id: &str,
    reader: Result<Principal, MemoryError>,
    agent: Result<Principal, MemoryError>,
    orchestrator: Result<Principal, MemoryError>,
)
    requires
        call_ensures(Principal::reader, (id,), reader),
        call_ensures(Principal::agent, (id,), agent),
        call_ensures(Principal::orchestrator, (id,), orchestrator),
    ensures
        reader is Ok <==> is_name(id@),
        agent is Ok <==> is_name(id@),
        orchestrator is Ok <==> is_name(id@),
        reader matches Ok(p) ==> p@.id == id@ && p@.role == PrincipalRole::Reader,
        agent matches Ok(p) ==> p@.id == id@ && p@.role == PrincipalRole::Agent,
        orchestrator matches Ok(p) ==> p@.id == id@ && p@.role == PrincipalRole::Orchestrator,
{
    lemma_name(id@);
}

/// A name: at least one character, and no NUL.
pub open spec fn is_name(id: Seq<char>) -> bool {
    id.len() > 0 && forall|i: int| 0 <= i < id.len() ==> #[trigger] id[i] != '\0'
}

proof fn lemma_name(id: Seq<char>)
    ensures
        is_name(id) <==> model::valid_identifier(id),
{
    if id.len() > 0 && !id.contains('\0') {
        assert forall|i: int| 0 <= i < id.len() implies #[trigger] id[i] != '\0' by {
            assert(id.contains(id[i]));
        }
    }
}

/// A path without a slash is valid if it is a name, but for `.` and `..`.
pub proof fn law_single_segments_are_names(path: Seq<char>)
    requires
        forall|i: int| 0 <= i < path.len() ==> #[trigger] path[i] != '/',
    ensures
        model::valid_path(path) <==> is_name(path) && path != seq!['.'] && path != seq!['.', '.'],
{
    lemma_name(path);
    let end = path.len() as int;
    if path.len() > 0 {
        assert(model::is_segment(path, 0, end));
        assert forall|start: int, stop: int| #[trigger]
            model::is_segment(path, start, stop) implies start == 0 && stop == end by {
            if start > 0 {
                assert(path[start - 1] != '/');
            }
            if stop < end {
                assert(path[stop] != '/');
            }
        }
        assert(path == seq!['.'] <==> path.len() == 1 && path[0] == '.') by {
            if path.len() == 1 && path[0] == '.' {
                assert(path =~= seq!['.']);
            }
        }
        assert(path == seq!['.', '.'] <==> path.len() == 2 && path[0] == '.' && path[1] == '.') by {
            if path.len() == 2 && path[0] == '.' && path[1] == '.' {
                assert(path =~= seq!['.', '.']);
            }
        }
    }
}

/// Two paths with a slash between them are a valid path if both are.
#[verifier::rlimit(30)]
pub proof fn law_paths_are_made_of_segments(front: Seq<char>, back: Seq<char>)
    ensures
        model::valid_path(front.push('/') + back) <==> model::valid_path(front)
            && model::valid_path(back),
{
    let path = front.push('/') + back;
    let middle = front.len() as int;
    assert(path[middle] == '/');
    assert(forall|i: int| 0 <= i < middle ==> #[trigger] path[i] == front[i]);
    assert(forall|i: int| 0 <= i < back.len() ==> #[trigger] back[i] == path[middle + 1 + i]);
    if model::valid_path(path) {
        assert(front.len() > 0) by {
            if front.len() == 0 {
                assert(path[0] == '/');
            }
        }
        assert(!front.contains('\0')) by {
            if front.contains('\0') {
                let i = choose|i: int| 0 <= i < front.len() && front[i] == '\0';
                assert(path[i] == '\0');
                assert(path.contains('\0'));
            }
        }
        assert(!back.contains('\0')) by {
            if back.contains('\0') {
                let i = choose|i: int| 0 <= i < back.len() && back[i] == '\0';
                assert(path[middle + 1 + i] == '\0');
                assert(path.contains('\0'));
            }
        }
        assert forall|start: int, end: int| #[trigger]
            model::is_segment(front, start, end) implies !model::ambiguous_segment(
            front,
            start,
            end,
        ) by {
            assert(model::is_segment(path, start, end));
            assert(!model::ambiguous_segment(path, start, end));
        }
        assert forall|start: int, end: int| #[trigger]
            model::is_segment(back, start, end) implies !model::ambiguous_segment(
            back,
            start,
            end,
        ) by {
            lemma_back_segment(front, back, start, end);
            assert(!model::ambiguous_segment(path, middle + 1 + start, middle + 1 + end));
        }
        if back.len() == 0 {
            assert(model::is_segment(back, 0, 0));
        } else if back[0] == '/' {
            assert(model::is_segment(back, 0, 0));
        }
    }
    if model::valid_path(front) && model::valid_path(back) {
        assert(!path.contains('\0')) by {
            if path.contains('\0') {
                let i = choose|i: int| 0 <= i < path.len() && path[i] == '\0';
                if i < middle {
                    assert(front.contains(front[i]));
                } else {
                    assert(back[i - middle - 1] == '\0');
                    assert(back.contains(back[i - middle - 1]));
                }
            }
        }
        assert forall|start: int, end: int| #[trigger]
            model::is_segment(path, start, end) implies !model::ambiguous_segment(
            path,
            start,
            end,
        ) by {
            if start <= middle {
                assert(end <= middle) by {
                    if end > middle {
                        assert(path[middle] != '/');
                    }
                }
                assert(model::is_segment(front, start, end)) by {
                    if end < front.len() {
                        assert(front[end] == path[end]);
                    }
                    if start > 0 {
                        assert(front[start - 1] == path[start - 1]);
                    }
                    assert forall|i: int| start <= i < end implies front[i] != '/' by {
                        assert(path[i] != '/');
                    }
                }
                assert(!model::ambiguous_segment(front, start, end));
            } else {
                let s = start - middle - 1;
                let e = end - middle - 1;
                assert(model::is_segment(back, s, e)) by {
                    if e < back.len() {
                        assert(back[e] == path[end]);
                    }
                    if s > 0 {
                        assert(back[s - 1] == path[start - 1]);
                    }
                    assert forall|i: int| s <= i < e implies back[i] != '/' by {
                        assert(path[middle + 1 + i] != '/');
                    }
                }
                assert(!model::ambiguous_segment(back, s, e));
            }
        }
    }
}

proof fn lemma_back_segment(front: Seq<char>, back: Seq<char>, start: int, end: int)
    requires
        model::is_segment(back, start, end),
    ensures
        model::is_segment(
            front.push('/') + back,
            front.len() + 1 + start,
            front.len() + 1 + end,
        ),
{
    let path = front.push('/') + back;
    let middle = front.len() as int;
    assert(path[middle] == '/');
    if start > 0 {
        assert(path[middle + start] == back[start - 1]);
    }
    if end < back.len() {
        assert(path[middle + 1 + end] == back[end]);
    }
    assert forall|i: int| middle + 1 + start <= i < middle + 1 + end implies path[i] != '/' by {
        assert(path[i] == back[i - middle - 1]);
    }
}

/// A write is asked for with a valid path, a session that has a name and a scope
/// that, if it is that of an agent, has one too.
pub proof fn law_requests_are_checked(
    scope: MemoryScope,
    path: &str,
    content: &str,
    session: &str,
    result: Result<MemoryWrite, MemoryError>,
)
    requires
        call_ensures(MemoryWrite::new, (scope, path, content, session), result),
    ensures
        result is Ok <==> {
            &&& model::valid_path(path@)
            &&& is_name(session@)
            &&& scope@ matches Scope::Agent(id) ==> is_name(id)
        },
        result matches Ok(write) ==> {
            &&& write@.path == path@
            &&& write@.scope == scope@
            &&& write@.content == content@
            &&& write@.session_id == session@
            &&& write@.expected_hash is None
        },
{
    lemma_name(session@);
    if let Scope::Agent(id) = scope@ {
        lemma_name(id);
    }
}

/// What the state hash is taken of, from path number `from` on: for each path the
/// number of its bytes, the bytes, the hash of the latest version and its number.
pub open spec fn state_from(memory: Store, from: int) -> Seq<u8>
    decreases memory.histories.len() - from,
{
    if from >= memory.histories.len() {
        seq![]
    } else {
        let history = memory.histories[from];
        let latest = history.records[history.records.len() - 1];
        let path = utf8::encode_utf8(history.path);
        writing::number(path.len(), 8) + path + utf8::encode_utf8(latest.content_hash)
            + writing::number(latest.version as nat, 8) + state_from(memory, from + 1)
    }
}

proof fn lemma_state(memory: Store, from: int)
    requires
        model::valid_store(memory),
        0 <= from <= memory.histories.len(),
    ensures
        model::state_bytes(memory.histories) == model::state_bytes(memory.histories.take(from))
            + state_from(memory, from),
    decreases memory.histories.len() - from,
{
    let histories = memory.histories;
    if from < histories.len() {
        lemma_state(memory, from + 1);
        let longer = histories.take(from + 1);
        assert(longer.drop_last() =~= histories.take(from));
        assert(longer.last() == histories[from]);
        assert(model::valid_history(histories[from], memory.sequence));
        let latest = histories[from].records.last();
        let path = utf8::encode_utf8(histories[from].path);
        writing::lemma_number_bytes(path.len(), 8);
        writing::lemma_number_bytes(latest.version as nat, 8);
        let before = model::state_bytes(histories.take(from));
        let head = model::head_bytes(histories[from]);
        assert(before + head + state_from(memory, from + 1) =~= before + state_from(memory, from));
    } else {
        assert(histories.take(from) =~= histories);
        assert(model::state_bytes(histories) + seq![] =~= model::state_bytes(histories));
    }
}

/// The state hash is the digest of all paths and of their latest versions, in the
/// order of the bytes of the paths.
pub proof fn law_state_hash_is_taken_in_the_order_of_paths(
    memory: &MemoryStore,
    hash: String,
    i: int,
    j: int,
)
    requires
        call_ensures(MemoryStore::state_hash, (memory,), hash),
    ensures
        hash@ == "sha256:"@ + digest::hex_of(digest::sha256_of(state_from(memory@, 0))@),
        0 <= i < j < memory@.histories.len() ==> text_laws::comes_before(
            utf8::encode_utf8(memory@.histories[i].path),
            utf8::encode_utf8(memory@.histories[j].path),
        ),
{
    lemma_state(memory@, 0);
    assert(memory@.histories.take(0) =~= seq![]);
    assert(seq![] + state_from(memory@, 0) =~= state_from(memory@, 0));
    if 0 <= i < j < memory@.histories.len() {
        assert(model::path_before(memory@.histories[i].path, memory@.histories[j].path));
        text_laws::lemma_before(
            utf8::encode_utf8(memory@.histories[i].path),
            utf8::encode_utf8(memory@.histories[j].path),
        );
    }
}

/// A request that states a hash asks for nothing else than before.
pub proof fn law_stating_a_hash_changes_nothing_else(
    write: MemoryWrite,
    hash: &str,
    stated: MemoryWrite,
)
    requires
        call_ensures(MemoryWrite::with_expected_hash, (write, hash), stated),
    ensures
        stated@.expected_hash == Some(hash@),
        stated@.path == write@.path,
        stated@.scope == write@.scope,
        stated@.content == write@.content,
        stated@.session_id == write@.session_id,
{
}

proof fn lemma_lookup(store: Store, path: Seq<char>)
    requires
        model::valid_store(store),
    ensures
        model::records_at(store.histories, path).len() > 0 ==> holds(
            store,
            path,
            model::records_at(store.histories, path),
        ),
        model::records_at(store.histories, path).len() == 0 ==> lacks(store, path),
{
    laws::lemma_slot(store.histories, path);
    if model::records_at(store.histories, path).len() > 0 {
        let slot = model::slot(store.histories, path) as int;
        assert(store.histories[slot].path == path);
    } else {
        assert forall|i: int| 0 <= i < store.histories.len() implies (
        #[trigger] store.histories[i]).path != path by {
            if store.histories[i].path == path {
                lemma_holds(store, path, store.histories[i].records);
            }
        }
    }
}

/// A write that goes through adds one version behind those at its path, and leaves
/// all other paths as they are. One that is refused changes nothing.
pub proof fn law_writes_add_one_version(
    memory: &mut MemoryStore,
    principal: &Principal,
    request: MemoryWrite,
    result: Result<MemoryEntry, MemoryError>,
    records: Seq<Record>,
    other: Seq<char>,
)
    requires
        call_ensures(MemoryStore::write, (memory, principal, request), result),
        other != request@.path,
    ensures
        result is Err ==> final(memory)@ == old(memory)@,
        result matches Ok(entry) ==> {
            &&& holds(old(memory)@, request@.path, records) ==> holds(
                final(memory)@,
                request@.path,
                records.push(entry@),
            )
            &&& lacks(old(memory)@, request@.path) ==> holds(
                final(memory)@,
                request@.path,
                seq![entry@],
            )
        },
        holds(old(memory)@, other, records) ==> holds(final(memory)@, other, records),
        lacks(old(memory)@, other) ==> lacks(final(memory)@, other),
{
    let before = old(memory)@;
    let after = final(memory)@;
    let actor = principal@;
    let time = choose|time: u128|
        {
            &&& clock::clock_reading(time)
            &&& after == #[trigger] model::store_after_write(before, actor, request@, time)
            &&& entry_result(result) == model::write_answer(before, actor, request@, time)
        };
    assert(after == model::store_after_write(before, actor, request@, time));
    assert(entry_result(result) == model::write_answer(before, actor, request@, time));
    lemma_holds(before, request@.path, records);
    lemma_holds(before, other, records);
    lemma_lookup(after, request@.path);
    lemma_lookup(after, other);
    laws::lemma_lookup_after_write(before, actor, request@, time, request@.path);
    laws::lemma_lookup_after_write(before, actor, request@, time, other);
    if lacks(before, request@.path) {
        if let Ok(entry) = result {
            assert(model::records_at(before.histories, request@.path).push(entry@) =~= seq![
                entry@,
            ]);
        }
    }
}

} // verus!
