//! The memory store and the passes that curate it.

use vstd::prelude::*;
use vstd::string::*;
use vstd::utf8;

use crate::bytes;
use crate::digest;
use crate::memory::clock;
use crate::memory::laws;
use crate::memory::model;
use crate::memory::model::{Actor, History, PrincipalRole, Record, Refusal, Request, Store};
use crate::memory::types;
use crate::memory::types::{
    MemoryEntry, MemoryError, MemoryWrite, Principal, SessionTranscript,
};
use crate::text;

verus! {

/// The versions of the memory at one path.
#[derive(Debug, PartialEq, Eq)]
struct PathHistory {
    path: String,
    entries: Vec<MemoryEntry>,
}

impl PathHistory {
    spec fn history(self) -> History {
        History {
            path: self.path@,
            records: self.entries@.map_values(|entry: MemoryEntry| entry@),
        }
    }
}

spec fn histories_of(histories: Seq<PathHistory>) -> Seq<History> {
    histories.map_values(|history: PathHistory| history.history())
}

/// A versioned in-memory store. It is intentionally file-shaped: callers can
/// persist each entry as a standalone record without changing the API.
#[derive(Debug, PartialEq, Eq)]
pub struct MemoryStore {
    histories: Vec<PathHistory>,
    next_sequence: u64,
}

impl View for MemoryStore {
    type V = Store;

    closed spec fn view(&self) -> Store {
        Store { histories: histories_of(self.histories@), sequence: self.next_sequence }
    }
}

/// Copies the entries of a history.
fn copy_entries(entries: &Vec<MemoryEntry>) -> (copies: Vec<MemoryEntry>)
    ensures
        copies@.map_values(|entry: MemoryEntry| entry@) == entries@.map_values(
            |entry: MemoryEntry| entry@,
        ),
{
    let mut copies: Vec<MemoryEntry> = Vec::new();
    let mut i: usize = 0;
    while i < entries.len()
        invariant
            i <= entries@.len(),
            copies@.len() == i,
            forall|j: int| 0 <= j < i ==> (#[trigger] copies@[j])@ == entries@[j]@,
        decreases entries@.len() - i,
    {
        copies.push(entries[i].clone());
        i += 1;
    }
    assert(copies@.map_values(|entry: MemoryEntry| entry@) =~= entries@.map_values(
        |entry: MemoryEntry| entry@,
    ));
    copies
}

impl Clone for MemoryStore {
    fn clone(&self) -> (copy: Self)
        ensures
            copy@ == self@,
            model::valid_store(copy@),
    {
        proof {
            use_type_invariant(self);
        }
        let mut histories: Vec<PathHistory> = Vec::new();
        let mut i: usize = 0;
        while i < self.histories.len()
            invariant
                i <= self.histories@.len(),
                histories@.len() == i,
                forall|j: int|
                    0 <= j < i ==> (#[trigger] histories@[j]).history()
                        == self.histories@[j].history(),
            decreases self.histories@.len() - i,
        {
            histories.push(
                PathHistory {
                    path: text::owned(self.histories[i].path.as_str()),
                    entries: copy_entries(&self.histories[i].entries),
                },
            );
            i += 1;
        }
        assert(histories_of(histories@) =~= histories_of(self.histories@));
        MemoryStore { histories, next_sequence: self.next_sequence }
    }
}

impl Default for MemoryStore {
    fn default() -> (store: Self)
        ensures
            store@ == (Store { histories: seq![], sequence: 0 }),
            model::valid_store(store@),
    {
        MemoryStore::new()
    }
}

/// The result of a request for one version, as a mathematical value.
pub open spec fn entry_result(result: Result<MemoryEntry, MemoryError>) -> Result<
    Record,
    Refusal,
> {
    match result {
        Ok(entry) => Ok(entry@),
        Err(error) => Err(error@),
    }
}

/// The result of a request for a history, as a mathematical value.
pub open spec fn history_result(result: Result<Vec<MemoryEntry>, MemoryError>) -> Result<
    Seq<Record>,
    Refusal,
> {
    match result {
        Ok(entries) => Ok(entries@.map_values(|entry: MemoryEntry| entry@)),
        Err(error) => Err(error@),
    }
}

impl MemoryStore {
    #[verifier::type_invariant]
    spec fn well_formed(self) -> bool {
        model::valid_store(self@)
    }

    /// Creates an empty store.
    pub fn new() -> (store: Self)
        ensures
            store@ == (Store { histories: seq![], sequence: 0 }),
            model::valid_store(store@),
    {
        let histories: Vec<PathHistory> = Vec::new();
        assert(histories_of(histories@) =~= seq![]);
        MemoryStore { histories, next_sequence: 0 }
    }

    /// Finds where the history at `path` stands, or where it would stand.
    fn find_slot(&self, path: &str) -> (found: (usize, bool))
        ensures
            found.0 == model::slot(self@.histories, path@),
            found.0 <= self.histories@.len(),
            found.1 == model::has_history(self@.histories, path@),
    {
        let ghost histories = self@.histories;
        let mut i: usize = 0;
        assert(histories.skip(0) =~= histories);
        while i < self.histories.len()
            invariant
                i <= self.histories@.len(),
                histories == histories_of(self.histories@),
                model::slot(histories, path@) == i + model::slot(
                    histories.skip(i as int),
                    path@,
                ),
            decreases self.histories@.len() - i,
        {
            assert(histories.skip(i as int)[0] == histories[i as int]);
            assert(histories.skip(i as int).drop_first() =~= histories.skip(i + 1));
            assert(histories[i as int].path == self.histories@[i as int].path@);
            match text::order_text(self.histories[i].path.as_str(), path) {
                text::TextOrder::Before => {
                    i += 1;
                },
                text::TextOrder::Same => {
                    proof {
                        text::lemma_lex_less_irreflexive(utf8::encode_utf8(path@));
                    }
                    return (i, true);
                },
                text::TextOrder::After => {
                    proof {
                        let here = utf8::encode_utf8(histories[i as int].path);
                        let wanted = utf8::encode_utf8(path@);
                        if text::lex_less(here, wanted) {
                            text::lemma_lex_less_transitive(here, wanted, here);
                        }
                        text::lemma_lex_less_irreflexive(here);
                    }
                    return (i, false);
                },
            }
        }
        assert(histories.skip(self.histories@.len() as int).len() == 0);
        (i, false)
    }

    /// Writes a new version after checking permissions and the expected head.
    ///
    /// The version carries the time of the system clock.
    pub fn write(&mut self, principal: &Principal, request: MemoryWrite) -> (result: Result<
        MemoryEntry,
        MemoryError,
    >)
        ensures
            exists|time: u128|
                {
                    &&& clock::clock_reading(time)
                    &&& final(self)@ == #[trigger] model::store_after_write(
                        old(self)@,
                        principal@,
                        request@,
                        time,
                    )
                    &&& entry_result(result) == model::write_answer(
                        old(self)@,
                        principal@,
                        request@,
                        time,
                    )
                },
            model::valid_store(old(self)@),
            model::valid_store(final(self)@),
            model::valid_request(request@),
    {
        let time: u128 = clock::unix_milliseconds();
        let result = self.write_at(principal, &request, time);
        assert(self@ == model::store_after_write(old(self)@, principal@, request@, time));
        result
    }

    /// Writes a new version that carries a given time.
    pub fn write_at(
        &mut self,
        principal: &Principal,
        request: &MemoryWrite,
        written_at_unix_ms: u128,
    ) -> (result: Result<MemoryEntry, MemoryError>)
        ensures
            final(self)@ == model::store_after_write(
                old(self)@,
                principal@,
                request@,
                written_at_unix_ms,
            ),
            entry_result(result) == model::write_answer(
                old(self)@,
                principal@,
                request@,
                written_at_unix_ms,
            ),
            model::valid_store(old(self)@),
            model::valid_store(final(self)@),
            model::valid_request(request@),
    {
        proof {
            use_type_invariant(&*self);
            use_type_invariant(request);
            request.lemma_view();
        }
        match types::authorize_write(principal, &request.scope, request.path.as_str()) {
            Ok(()) => {},
            Err(error) => {
                return Err(error);
            },
        }
        let (index, present): (usize, bool) = self.find_slot(request.path.as_str());
        let ghost before = self@;
        let ghost path = request.path@;
        proof {
            laws::law_writes_keep_stores_valid(
                before,
                principal@,
                request@,
                written_at_unix_ms,
            );
        }
        let none: Vec<MemoryEntry> = Vec::new();
        assert(none@.map_values(|entry: MemoryEntry| entry@) =~= seq![]);
        let entries: &Vec<MemoryEntry> = if present {
            &self.histories[index].entries
        } else {
            &none
        };
        assert(present ==> before.histories[index as int]
            == self.histories@[index as int].history());
        assert(entries@.map_values(|entry: MemoryEntry| entry@) == model::records_at(
            before.histories,
            path,
        ));
        if let Some(error) = check_head(entries, request) {
            return Err(error);
        }
        let sequence: u64 = self.next_sequence.saturating_add(1);
        let version: u64 = match last_entry(entries) {
            Some(head) => {
                proof {
                    head.lemma_view();
                }
                head.version.saturating_add(1)
            },
            None => 1,
        };
        let entry = MemoryEntry {
            path: text::owned(request.path.as_str()),
            scope: request.scope.clone(),
            version,
            content: text::owned(request.content.as_str()),
            content_hash: digest::digest_text(request.content.as_str().as_bytes()),
            written_by: text::owned(principal.id()),
            session_id: text::owned(request.session_id.as_str()),
            sequence,
            written_at_unix_ms,
        };
        let copy = entry.clone();
        let ghost record = model::written_record(
            before,
            principal@,
            request@,
            written_at_unix_ms,
        );
        proof {
            entry.lemma_view();
            assert(entry@ == record);
        }
        let mut histories: Vec<PathHistory> = Vec::new();
        assert(histories_of(histories@) =~= seq![]);
        std::mem::swap(&mut histories, &mut self.histories);
        let histories = append_entry(histories, index, present, request.path.as_str(), entry);
        self.next_sequence = sequence;
        self.histories = histories;
        Ok(copy)
    }

    /// Reads the current head when the principal is authorized for its scope.
    pub fn read(&self, principal: &Principal, path: &str) -> (result: Result<
        MemoryEntry,
        MemoryError,
    >)
        ensures
            entry_result(result) == model::read_answer(self@, principal@, path@),
            model::valid_store(self@),
    {
        proof {
            use_type_invariant(self);
        }
        if !types::is_valid_path(path) {
            return Err(MemoryError::InvalidPath);
        }
        let (index, present): (usize, bool) = self.find_slot(path);
        if !present {
            return Err(MemoryError::Missing { path: text::owned(path) });
        }
        let entries = &self.histories[index].entries;
        assert(self@.histories[index as int] == self.histories@[index as int].history());
        match last_entry(entries) {
            None => Err(MemoryError::Missing { path: text::owned(path) }),
            Some(entry) => {
                proof {
                    entry.lemma_view();
                }
                match types::authorize_read(principal, &entry.scope, path) {
                    Ok(()) => Ok(entry.clone()),
                    Err(error) => Err(error),
                }
            },
        }
    }

    /// Reads a specific historical version.
    pub fn read_version(&self, principal: &Principal, path: &str, version: u64) -> (result: Result<
        MemoryEntry,
        MemoryError,
    >)
        ensures
            entry_result(result) == model::read_version_answer(
                self@,
                principal@,
                path@,
                version,
            ),
            model::valid_store(self@),
    {
        proof {
            use_type_invariant(self);
        }
        let (index, present): (usize, bool) = self.find_slot(path);
        if !present {
            return Err(MemoryError::Missing { path: text::owned(path) });
        }
        let entries = &self.histories[index].entries;
        let ghost records = model::records_at(self@.histories, path@);
        assert(self@.histories[index as int] == self.histories@[index as int].history());
        assert(model::valid_history(self@.histories[index as int], self@.sequence));
        let mut i: usize = 0;
        assert(records.skip(0) =~= records);
        while i < entries.len()
            invariant
                i <= entries@.len(),
                records == entries@.map_values(|entry: MemoryEntry| entry@),
                model::valid_store(self@),
                records.len() > 0,
                records == model::records_at(self@.histories, path@),
                model::version_index(records, version) == match model::version_index(
                    records.skip(i as int),
                    version,
                ) {
                    Some(index) => Some(index + i),
                    None => None,
                },
            decreases entries@.len() - i,
        {
            let entry = &entries[i];
            proof {
                entry.lemma_view();
                assert(records.skip(i as int)[0] == records[i as int]);
                assert(records.skip(i as int).drop_first() =~= records.skip(i + 1));
            }
            if entry.version == version {
                return match types::authorize_read(principal, &entry.scope, path) {
                    Ok(()) => Ok(entry.clone()),
                    Err(error) => Err(error),
                };
            }
            i += 1;
        }
        assert(records.skip(entries@.len() as int).len() == 0);
        Err(MemoryError::InvalidVersion { path: text::owned(path), version })
    }

    /// Returns the full immutable history for an authorized path.
    pub fn history(&self, principal: &Principal, path: &str) -> (result: Result<
        Vec<MemoryEntry>,
        MemoryError,
    >)
        ensures
            history_result(result) == model::history_answer(self@, principal@, path@),
            model::valid_store(self@),
    {
        proof {
            use_type_invariant(self);
        }
        let (index, present): (usize, bool) = self.find_slot(path);
        if !present {
            return Err(MemoryError::Missing { path: text::owned(path) });
        }
        let entries = &self.histories[index].entries;
        assert(self@.histories[index as int] == self.histories@[index as int].history());
        assert(model::valid_history(self@.histories[index as int], self@.sequence));
        match last_entry(entries) {
            None => Err(MemoryError::Missing { path: text::owned(path) }),
            Some(entry) => {
                proof {
                    entry.lemma_view();
                }
                match types::authorize_read(principal, &entry.scope, path) {
                    Ok(()) => Ok(copy_entries(entries)),
                    Err(error) => Err(error),
                }
            },
        }
    }

    /// Returns a deterministic hash of all current heads for CAS commits.
    pub fn state_hash(&self) -> (hash: String)
        ensures
            hash@ == model::state_hash_of(self@),
            model::valid_store(self@),
    {
        proof {
            use_type_invariant(self);
        }
        let ghost histories = self@.histories;
        let mut bytes: Vec<u8> = Vec::new();
        let mut i: usize = 0;
        assert(histories.take(0) =~= seq![]);
        while i < self.histories.len()
            invariant
                i <= self.histories@.len(),
                histories == histories_of(self.histories@),
                bytes@ == model::state_bytes(histories.take(i as int)),
            decreases self.histories@.len() - i,
        {
            let history = &self.histories[i];
            assert(histories[i as int] == history.history());
            if let Some(entry) = last_entry(&history.entries) {
                proof {
                    entry.lemma_view();
                }
                let ghost start = bytes@;
                let path = history.path.as_str().as_bytes();
                bytes::push_le_bytes(&mut bytes, path.len() as u64);
                bytes::push_bytes(&mut bytes, path);
                bytes::push_bytes(&mut bytes, entry.content_hash.as_str().as_bytes());
                bytes::push_le_bytes(&mut bytes, entry.version);
                assert(bytes@ =~= start + model::head_bytes(histories[i as int]));
            }
            proof {
                let longer = histories.take(i + 1);
                assert(longer.drop_last() =~= histories.take(i as int));
                assert(longer.last() == histories[i as int]);
                assert(bytes@ =~= model::state_bytes(longer));
            }
            i += 1;
        }
        assert(histories.take(histories.len() as int) =~= histories);
        digest::digest_text(bytes.as_slice())
    }

    /// Starts an out-of-band dreaming pass from a stable clone of this store.
    pub fn start_dreaming(&self, principal: &Principal) -> (result: Result<
        DreamingPass,
        MemoryError,
    >)
        ensures
            match result {
                Ok(pass) => principal@.role == PrincipalRole::Orchestrator && pass@ == (Pass {
                    input: self@,
                    output: self@,
                    base_hash: model::state_hash_of(self@),
                }),
                Err(error) => principal@.role != PrincipalRole::Orchestrator && error@
                    == (Refusal::PermissionDenied { path: "<dreaming>"@ }),
            },
    {
        if principal.role() != PrincipalRole::Orchestrator {
            return Err(MemoryError::PermissionDenied { path: text::owned("<dreaming>") });
        }
        Ok(
            DreamingPass {
                input: self.clone(),
                output: self.clone(),
                base_hash: self.state_hash(),
            },
        )
    }
}

/// Puts a version behind those at its path.
fn append_entry(
    histories: Vec<PathHistory>,
    index: usize,
    present: bool,
    path: &str,
    entry: MemoryEntry,
) -> (grown: Vec<PathHistory>)
    requires
        index == model::slot(histories_of(histories@), path@),
        index <= histories@.len(),
        present == model::has_history(histories_of(histories@), path@),
    ensures
        histories_of(grown@) == model::appended(histories_of(histories@), path@, entry@),
{
    let ghost before = histories_of(histories@);
    let ghost record = entry@;
    let mut grown = histories;
    if present {
        assert(before[index as int] == histories@[index as int].history());
        let mut longer = grown.remove(index);
        longer.entries.push(entry);
        assert(longer.history() =~= (History {
            path: path@,
            records: model::records_at(before, path@).push(record),
        }));
        grown.insert(index, longer);
    } else {
        let mut first: Vec<MemoryEntry> = Vec::new();
        first.push(entry);
        let fresh = PathHistory { path: text::owned(path), entries: first };
        assert(fresh.history() =~= (History { path: path@, records: seq![].push(record) }));
        grown.insert(index, fresh);
    }
    assert(histories_of(grown@) =~= model::appended(before, path@, record));
    grown
}

/// The current version in a history.
fn last_entry(entries: &Vec<MemoryEntry>) -> (last: Option<&MemoryEntry>)
    ensures
        match last {
            Some(entry) => entries@.len() > 0 && *entry == entries@.last(),
            None => entries@.len() == 0,
        },
{
    if entries.len() == 0 {
        None
    } else {
        Some(&entries[entries.len() - 1])
    }
}

/// Tests a request against the current version.
fn check_head(entries: &Vec<MemoryEntry>, request: &MemoryWrite) -> (error: Option<MemoryError>)
    ensures
        ({
            let records = entries@.map_values(|entry: MemoryEntry| entry@);
            let path = request@.path;
            let expected = request@.expected_hash;
            let refusal = if records.len() > 0 {
                let head = records.last();
                if head.scope != request@.scope {
                    Some(Refusal::ScopeMismatch { path })
                } else {
                    match expected {
                        None => Some(
                            Refusal::PreconditionRequired {
                                path,
                                actual_hash: head.content_hash,
                            },
                        ),
                        Some(expected_hash) => if expected_hash != head.content_hash {
                            Some(
                                Refusal::Conflict {
                                    path,
                                    expected_hash,
                                    actual_hash: head.content_hash,
                                },
                            )
                        } else {
                            None
                        },
                    }
                }
            } else {
                match expected {
                    Some(expected_hash) if expected_hash.len() > 0 => Some(
                        Refusal::Conflict { path, expected_hash, actual_hash: seq![] },
                    ),
                    _ => None,
                }
            };
            match error {
                Some(error) => refusal == Some(error@),
                None => refusal is None,
            }
        }),
{
    proof {
        request.lemma_view();
    }
    let path = request.path.as_str();
    match last_entry(entries) {
        Some(head) => {
            proof {
                head.lemma_view();
            }
            if !types::same_scope(&head.scope, &request.scope) {
                return Some(MemoryError::ScopeMismatch { path: text::owned(path) });
            }
            match &request.expected_hash {
                None => Some(
                    MemoryError::PreconditionRequired {
                        path: text::owned(path),
                        actual_hash: text::owned(head.content_hash.as_str()),
                    },
                ),
                Some(expected) => {
                    if !text::same_text(expected.as_str(), head.content_hash.as_str()) {
                        return Some(
                            MemoryError::Conflict {
                                path: text::owned(path),
                                expected_hash: text::owned(expected.as_str()),
                                actual_hash: text::owned(head.content_hash.as_str()),
                            },
                        );
                    }
                    None
                },
            }
        },
        None => {
            if let Some(expected) = &request.expected_hash {
                if !expected.as_str().is_empty() {
                    let error = MemoryError::Conflict {
                        path: text::owned(path),
                        expected_hash: text::owned(expected.as_str()),
                        actual_hash: String::new(),
                    };
                    assert(error@->Conflict_actual_hash =~= seq![]);
                    return Some(error);
                }
            }
            None
        },
    }
}

/// A stable input clone and mutable output clone for a batch memory pass.
#[derive(Debug)]
pub struct DreamingPass {
    input: MemoryStore,
    output: MemoryStore,
    base_hash: String,
}

/// A dreaming pass, as a mathematical value.
#[verifier::ext_equal]
pub struct Pass {
    pub input: Store,
    pub output: Store,
    pub base_hash: Seq<char>,
}

impl View for DreamingPass {
    type V = Pass;

    closed spec fn view(&self) -> Pass {
        Pass { input: self.input@, output: self.output@, base_hash: self.base_hash@ }
    }
}

impl Clone for DreamingPass {
    fn clone(&self) -> (copy: Self)
        ensures
            copy@ == self@,
    {
        DreamingPass {
            input: self.input.clone(),
            output: self.output.clone(),
            base_hash: text::owned(self.base_hash.as_str()),
        }
    }
}

/// The requests that a curator proposes.
pub open spec fn requests_of(writes: Seq<MemoryWrite>) -> Seq<Request> {
    writes.map_values(|write: MemoryWrite| write@)
}

/// The store after a number of writes at given times. The first refusal ends
/// them.
pub open spec fn store_after_writes(
    store: Store,
    actor: Actor,
    requests: Seq<Request>,
    times: Seq<u128>,
) -> Store
    decreases requests.len(),
{
    if requests.len() == 0 {
        store
    } else {
        let after = model::store_after_write(store, actor, requests[0], times[0]);
        if model::write_refusal(store.histories, actor, requests[0]) is Some {
            after
        } else {
            store_after_writes(after, actor, requests.drop_first(), times.drop_first())
        }
    }
}

/// The first refusal among a number of writes at given times.
pub open spec fn first_refusal(
    store: Store,
    actor: Actor,
    requests: Seq<Request>,
    times: Seq<u128>,
) -> Option<Refusal>
    decreases requests.len(),
{
    if requests.len() == 0 {
        None
    } else {
        match model::write_refusal(store.histories, actor, requests[0]) {
            Some(refusal) => Some(refusal),
            None => first_refusal(
                model::store_after_write(store, actor, requests[0], times[0]),
                actor,
                requests.drop_first(),
                times.drop_first(),
            ),
        }
    }
}

/// What a session comes to whose curator proposes `requests`. Each is written at
/// a time that the system clock gives.
pub open spec fn session_outcome(
    before: Pass,
    after: Pass,
    result: Result<usize, MemoryError>,
    actor: Actor,
    requests: Seq<Request>,
    times: Seq<u128>,
) -> bool {
    &&& times.len() == requests.len()
    &&& forall|i: int| 0 <= i < times.len() ==> clock::clock_reading(#[trigger] times[i])
    &&& after.output == store_after_writes(before.output, actor, requests, times)
    &&& match first_refusal(before.output, actor, requests, times) {
        Some(refusal) => result matches Err(error) && error@ == refusal,
        None => result matches Ok(applied) && applied == requests.len(),
    }
}

impl DreamingPass {
    /// Returns the frozen input state seen by each curator.
    pub fn input(&self) -> (store: &MemoryStore)
        ensures
            store@ == self@.input,
            *store == self.spec_input(),
            model::valid_store(store@),
    {
        proof {
            use_type_invariant(&self.input);
        }
        &self.input
    }

    /// Returns the evolving output state.
    pub fn output(&self) -> (store: &MemoryStore)
        ensures
            store@ == self@.output,
            model::valid_store(store@),
    {
        proof {
            use_type_invariant(&self.output);
        }
        &self.output
    }

    /// The input as a curator sees it.
    pub closed spec fn spec_input(&self) -> MemoryStore {
        self.input
    }

    /// Runs one transcript curator and applies its proposed writes to output.
    /// The curator reads only the frozen input state, which keeps sessions
    /// independent while the orchestrator serializes their commits.
    pub fn curate_session<F>(
        &mut self,
        principal: &Principal,
        transcript: &SessionTranscript,
        curator: F,
    ) -> (result: Result<usize, MemoryError>) where
        F: FnOnce(&MemoryStore, &SessionTranscript) -> Result<Vec<MemoryWrite>, MemoryError>,

        requires
            call_requires(curator, (&old(self).spec_input(), transcript)),
        ensures
            final(self)@.input == old(self)@.input,
            final(self).spec_input() == old(self).spec_input(),
            final(self)@.base_hash == old(self)@.base_hash,
            exists|proposal: Result<Vec<MemoryWrite>, MemoryError>| #[trigger]
                call_ensures(curator, (&old(self).spec_input(), transcript), proposal)
                    && match proposal {
                    Err(error) => final(self)@ == old(self)@ && result == Err::<
                        usize,
                        MemoryError,
                    >(error),
                    Ok(writes) => exists|times: Seq<u128>| #[trigger]
                        session_outcome(
                            old(self)@,
                            final(self)@,
                            result,
                            principal@,
                            requests_of(writes@),
                            times,
                        ),
                },
    {
        match curator(&self.input, transcript) {
            Ok(writes) => self.apply(principal, &writes),
            Err(error) => Err(error),
        }
    }

    /// Applies proposed writes to output, up to the first that is refused.
    fn apply(&mut self, principal: &Principal, writes: &Vec<MemoryWrite>) -> (result: Result<
        usize,
        MemoryError,
    >)
        ensures
            final(self).input == old(self).input,
            final(self)@.base_hash == old(self)@.base_hash,
            exists|times: Seq<u128>| #[trigger]
                session_outcome(
                    old(self)@,
                    final(self)@,
                    result,
                    principal@,
                    requests_of(writes@),
                    times,
                ),
    {
        let ghost requests = requests_of(writes@);
        let ghost before = self@;
        let ghost mut times: Seq<u128> = seq![];
        let mut applied: usize = 0;
        assert(requests.skip(0) =~= requests);
        while applied < writes.len()
            invariant
                applied <= writes@.len(),
                requests == requests_of(writes@),
                times.len() == applied,
                forall|i: int|
                    0 <= i < times.len() ==> clock::clock_reading(#[trigger] times[i]),
                before == old(self)@,
                self.input == old(self).input,
                self@.base_hash == before.base_hash,
                forall|later: Seq<u128>|
                    #![trigger times + later]
                    later.len() == requests.len() - applied ==> {
                        &&& store_after_writes(before.output, principal@, requests, times + later)
                            == store_after_writes(
                            self@.output,
                            principal@,
                            requests.skip(applied as int),
                            later,
                        )
                        &&& first_refusal(before.output, principal@, requests, times + later)
                            == first_refusal(
                            self@.output,
                            principal@,
                            requests.skip(applied as int),
                            later,
                        )
                    },
            decreases writes@.len() - applied,
        {
            let time: u128 = clock::unix_milliseconds();
            let ghost rest = requests.skip(applied as int);
            let ghost here = self@.output;
            assert(rest[0] == writes@[applied as int]@);
            assert(rest.drop_first() =~= requests.skip(applied + 1));
            let result = self.output.write_at(principal, &writes[applied], time);
            proof {
                let earlier = times;
                times = times.push(time);
                assert forall|later: Seq<u128>|
                    #![trigger times + later]
                    later.len() == requests.len() - applied - 1 implies ({
                    let all = seq![time] + later;
                    &&& store_after_writes(before.output, principal@, requests, times + later)
                        == store_after_writes(here, principal@, rest, all)
                    &&& first_refusal(before.output, principal@, requests, times + later)
                        == first_refusal(here, principal@, rest, all)
                    &&& all.drop_first() == later
                }) by {
                    let all = seq![time] + later;
                    assert(times + later =~= earlier + all);
                    assert(all.drop_first() =~= later);
                }
            }
            if let Err(error) = result {
                proof {
                    let later = Seq::new(
                        (requests.len() - applied - 1) as nat,
                        |i: int| time,
                    );
                    assert(session_outcome(
                        before,
                        self@,
                        Err(error),
                        principal@,
                        requests,
                        times + later,
                    ));
                }
                return Err(error);
            }
            applied += 1;
        }
        proof {
            assert(times + seq![] =~= times);
            assert(requests.skip(applied as int).len() == 0);
            assert(session_outcome(
                before,
                self@,
                Ok(applied),
                principal@,
                requests,
                times + seq![],
            ));
        }
        Ok(applied)
    }

    /// Atomically publishes the output clone if the live store is unchanged.
    pub fn commit(self, principal: &Principal, target: &mut MemoryStore) -> (result: Result<
        (),
        MemoryError,
    >)
        ensures
            match result {
                Ok(()) => {
                    &&& principal@.role == PrincipalRole::Orchestrator
                    &&& model::state_hash_of(old(target)@) == self@.base_hash
                    &&& final(target)@ == self@.output
                },
                Err(error) => {
                    &&& final(target)@ == old(target)@
                    &&& if principal@.role != PrincipalRole::Orchestrator {
                        error@ == (Refusal::PermissionDenied { path: "<dreaming>"@ })
                    } else {
                        &&& model::state_hash_of(old(target)@) != self@.base_hash
                        &&& error@ == (Refusal::Conflict {
                            path: "<store>"@,
                            expected_hash: self@.base_hash,
                            actual_hash: model::state_hash_of(old(target)@),
                        })
                    }
                },
            },
    {
        if principal.role() != PrincipalRole::Orchestrator {
            return Err(MemoryError::PermissionDenied { path: text::owned("<dreaming>") });
        }
        let actual_hash = target.state_hash();
        if !text::same_text(actual_hash.as_str(), self.base_hash.as_str()) {
            return Err(
                MemoryError::Conflict {
                    path: text::owned("<store>"),
                    expected_hash: self.base_hash,
                    actual_hash,
                },
            );
        }
        *target = self.output;
        Ok(())
    }
}

} // verus!
