//! Principals, requests, entries and errors of the memory store.

use vstd::prelude::*;
use vstd::string::*;
use vstd::utf8;

use crate::memory::model;
use crate::memory::model::{Actor, PrincipalRole, Record, Refusal, Request, Scope};
use crate::text;

verus! {

/// A memory namespace with explicit ownership semantics.
#[derive(Debug, PartialEq, Eq)]
pub enum MemoryScope {
    /// Organizational knowledge. Agents may read it, but only an orchestrator
    /// may update it.
    Shared,
    /// Working memory owned by one agent identifier.
    Agent(String),
}

impl View for MemoryScope {
    type V = Scope;

    open spec fn view(&self) -> Scope {
        match *self {
            MemoryScope::Shared => Scope::Shared,
            MemoryScope::Agent(id) => Scope::Agent(id@),
        }
    }
}

impl Clone for MemoryScope {
    fn clone(&self) -> (copy: Self)
        ensures
            copy@ == self@,
    {
        match self {
            MemoryScope::Shared => MemoryScope::Shared,
            MemoryScope::Agent(id) => MemoryScope::Agent(text::owned(id.as_str())),
        }
    }
}

/// Tests two scopes for equality.
pub(crate) fn same_scope(a: &MemoryScope, b: &MemoryScope) -> (same: bool)
    ensures
        same == (a@ == b@),
{
    match (a, b) {
        (MemoryScope::Shared, MemoryScope::Shared) => true,
        (MemoryScope::Agent(left), MemoryScope::Agent(right)) => text::same_text(
            left.as_str(),
            right.as_str(),
        ),
        _ => false,
    }
}

/// Tests an identifier: it is not empty and holds no NUL.
fn is_identifier(id: &str) -> (valid: bool)
    ensures
        valid == model::valid_identifier(id@),
{
    let chars = text::characters(id);
    if chars.len() == 0 {
        return false;
    }
    let mut i: usize = 0;
    while i < chars.len()
        invariant
            i <= chars@.len(),
            chars@ == id@,
            forall|j: int| 0 <= j < i ==> chars@[j] != '\0',
        decreases chars@.len() - i,
    {
        if chars[i] == '\0' {
            assert(id@[i as int] == '\0');
            return false;
        }
        i += 1;
    }
    true
}

/// The authority used for memory reads, writes, and dreaming commits.
#[derive(Debug, PartialEq, Eq)]
pub struct Principal {
    id: String,
    role: PrincipalRole,
}

impl View for Principal {
    type V = Actor;

    closed spec fn view(&self) -> Actor {
        Actor { id: self.id@, role: self.role }
    }
}

impl Clone for Principal {
    fn clone(&self) -> (copy: Self)
        ensures
            copy@ == self@,
    {
        proof {
            use_type_invariant(self);
        }
        Principal { id: text::owned(self.id.as_str()), role: self.role }
    }
}

/// What making a principal answers.
pub open spec fn principal_answer(id: Seq<char>, role: PrincipalRole) -> Result<Actor, Refusal> {
    if model::valid_identifier(id) {
        Ok(Actor { id, role })
    } else {
        Err(Refusal::InvalidPrincipal)
    }
}

/// The result of making a principal, as a mathematical value.
pub open spec fn principal_result(result: Result<Principal, MemoryError>) -> Result<
    Actor,
    Refusal,
> {
    match result {
        Ok(principal) => Ok(principal@),
        Err(error) => Err(error@),
    }
}

impl Principal {
    #[verifier::type_invariant]
    spec fn well_formed(self) -> bool {
        model::valid_identifier(self.id@)
    }

    /// Creates a read-only principal.
    pub fn reader(id: &str) -> (result: Result<Self, MemoryError>)
        ensures
            principal_result(result) == principal_answer(id@, PrincipalRole::Reader),
    {
        Self::new(id, PrincipalRole::Reader)
    }

    /// Creates an agent principal. It can write only its own agent scope.
    pub fn agent(id: &str) -> (result: Result<Self, MemoryError>)
        ensures
            principal_result(result) == principal_answer(id@, PrincipalRole::Agent),
    {
        Self::new(id, PrincipalRole::Agent)
    }

    /// Creates an orchestrator principal. It can coordinate shared memory and
    /// dreaming commits.
    pub fn orchestrator(id: &str) -> (result: Result<Self, MemoryError>)
        ensures
            principal_result(result) == principal_answer(id@, PrincipalRole::Orchestrator),
    {
        Self::new(id, PrincipalRole::Orchestrator)
    }

    /// Returns the stable principal identifier.
    pub fn id(&self) -> (id: &str)
        ensures
            id@ == self@.id,
            model::valid_identifier(id@),
    {
        proof {
            use_type_invariant(self);
        }
        self.id.as_str()
    }

    /// Returns the authority role.
    pub fn role(&self) -> (role: PrincipalRole)
        ensures
            role == self@.role,
    {
        self.role
    }

    fn new(id: &str, role: PrincipalRole) -> (result: Result<Self, MemoryError>)
        ensures
            principal_result(result) == principal_answer(id@, role),
    {
        if !is_identifier(id) {
            return Err(MemoryError::InvalidPrincipal);
        }
        Ok(Principal { id: text::owned(id), role })
    }
}

/// Tests whether a principal owns the memory of `owner`.
fn is_owner(principal: &Principal, owner: &str) -> (answer: bool)
    ensures
        answer == model::owns(principal@, owner@),
{
    principal.role == PrincipalRole::Orchestrator || (principal.role == PrincipalRole::Agent
        && text::same_text(principal.id.as_str(), owner))
}

/// Tests whether a principal may read memory of a given scope.
pub(crate) fn authorize_read(principal: &Principal, scope: &MemoryScope, path: &str) -> (result:
    Result<(), MemoryError>)
    ensures
        match result {
            Ok(()) => model::may_read(principal@, scope@),
            Err(error) => !model::may_read(principal@, scope@) && error@
                == (Refusal::PermissionDenied { path: path@ }),
        },
{
    let allowed = match scope {
        MemoryScope::Shared => true,
        MemoryScope::Agent(owner) => is_owner(principal, owner.as_str()),
    };
    if allowed {
        Ok(())
    } else {
        Err(MemoryError::PermissionDenied { path: text::owned(path) })
    }
}

/// Tests whether a principal may write memory of a given scope.
pub(crate) fn authorize_write(principal: &Principal, scope: &MemoryScope, path: &str) -> (result:
    Result<(), MemoryError>)
    ensures
        match result {
            Ok(()) => model::may_write(principal@, scope@),
            Err(error) => !model::may_write(principal@, scope@) && error@
                == (Refusal::PermissionDenied { path: path@ }),
        },
{
    let allowed = match scope {
        MemoryScope::Shared => principal.role == PrincipalRole::Orchestrator,
        MemoryScope::Agent(owner) => is_owner(principal, owner.as_str()),
    };
    if allowed {
        Ok(())
    } else {
        Err(MemoryError::PermissionDenied { path: text::owned(path) })
    }
}

/// One requested content-addressed memory write.
#[derive(Debug, PartialEq, Eq)]
pub struct MemoryWrite {
    pub(crate) path: String,
    pub(crate) scope: MemoryScope,
    pub(crate) content: String,
    pub(crate) session_id: String,
    pub(crate) expected_hash: Option<String>,
}

impl View for MemoryWrite {
    type V = Request;

    closed spec fn view(&self) -> Request {
        self.request()
    }
}

impl Clone for MemoryWrite {
    fn clone(&self) -> (copy: Self)
        ensures
            copy@ == self@,
    {
        proof {
            use_type_invariant(self);
        }
        MemoryWrite {
            path: text::owned(self.path.as_str()),
            scope: self.scope.clone(),
            content: text::owned(self.content.as_str()),
            session_id: text::owned(self.session_id.as_str()),
            expected_hash: match &self.expected_hash {
                Some(hash) => Some(text::owned(hash.as_str())),
                None => None,
            },
        }
    }
}

impl MemoryWrite {
    pub(crate) open spec fn request(self) -> Request {
        Request {
            path: self.path@,
            scope: self.scope@,
            content: self.content@,
            session_id: self.session_id@,
            expected_hash: match self.expected_hash {
                Some(hash) => Some(hash@),
                None => None,
            },
        }
    }

    #[verifier::type_invariant]
    pub(crate) open spec fn well_formed(self) -> bool {
        model::valid_request(self.request())
    }

    pub(crate) proof fn lemma_view(&self)
        ensures
            self@ == self.request(),
    {
    }

    /// Creates a write request. A request without an expected hash may create
    /// a new path, but cannot overwrite an existing head.
    pub fn new(scope: MemoryScope, path: &str, content: &str, session_id: &str) -> (result: Result<
        Self,
        MemoryError,
    >)
        ensures
            match result {
                Ok(write) => {
                    &&& model::valid_path(path@)
                    &&& model::valid_identifier(session_id@)
                    &&& model::valid_scope(scope@)
                    &&& model::valid_request(write@)
                    &&& write@ == (Request {
                        path: path@,
                        scope: scope@,
                        content: content@,
                        session_id: session_id@,
                        expected_hash: None,
                    })
                },
                Err(error) => {
                    &&& !(model::valid_path(path@) && model::valid_identifier(session_id@)
                        && model::valid_scope(scope@))
                    &&& error@ == if !model::valid_path(path@) {
                        Refusal::InvalidPath
                    } else if !model::valid_identifier(session_id@) {
                        Refusal::InvalidSession
                    } else {
                        Refusal::InvalidScope
                    }
                },
            },
    {
        if !is_valid_path(path) {
            return Err(MemoryError::InvalidPath);
        }
        if !is_identifier(session_id) {
            return Err(MemoryError::InvalidSession);
        }
        if let MemoryScope::Agent(id) = &scope {
            if !is_identifier(id.as_str()) {
                return Err(MemoryError::InvalidScope);
            }
        }
        let length: usize = path.as_bytes().len();
        assert(utf8::encode_utf8(path@).len() == length);
        Ok(
            MemoryWrite {
                path: text::owned(path),
                scope,
                content: text::owned(content),
                session_id: text::owned(session_id),
                expected_hash: None,
            },
        )
    }

    /// Sets the content hash that must still be the current head.
    pub fn with_expected_hash(self, expected_hash: &str) -> (write: Self)
        ensures
            write@ == (Request { expected_hash: Some(expected_hash@), ..self@ }),
    {
        proof {
            use_type_invariant(&self);
        }
        MemoryWrite {
            path: self.path,
            scope: self.scope,
            content: self.content,
            session_id: self.session_id,
            expected_hash: Some(text::owned(expected_hash)),
        }
    }

    /// Returns the target path.
    pub fn path(&self) -> (path: &str)
        ensures
            path@ == self@.path,
            model::valid_request(self@),
    {
        proof {
            use_type_invariant(self);
        }
        self.path.as_str()
    }

    /// Returns the target scope.
    pub fn scope(&self) -> (scope: &MemoryScope)
        ensures
            scope@ == self@.scope,
    {
        &self.scope
    }
}

/// Tests a path: relative, with no segment that is empty, `.` or `..`.
pub(crate) fn is_valid_path(path: &str) -> (valid: bool)
    ensures
        valid == model::valid_path(path@),
{
    let chars = text::characters(path);
    if chars.len() == 0 || chars[0] == '/' {
        return false;
    }
    let mut start: usize = 0;
    let mut i: usize = 0;
    while i < chars.len()
        invariant
            start <= i <= chars@.len(),
            chars@ == path@,
            start == 0 || path@[start - 1] == '/',
            forall|j: int| start <= j < i ==> path@[j] != '/',
            forall|j: int| 0 <= j < i ==> path@[j] != '\0',
            forall|a: int, b: int|
                b < start && #[trigger] model::is_segment(path@, a, b)
                    ==> !model::ambiguous_segment(path@, a, b),
        decreases chars@.len() - i,
    {
        let c = chars[i];
        if c == '\0' {
            assert(path@[i as int] == '\0');
            return false;
        }
        if c == '/' {
            assert(model::is_segment(path@, start as int, i as int));
            if is_ambiguous_segment(&chars, start, i) {
                return false;
            }
            assert forall|a: int, b: int|
                b < i + 1 && #[trigger] model::is_segment(
                    path@,
                    a,
                    b,
                ) implies !model::ambiguous_segment(path@, a, b) by {
                if b >= start {
                    lemma_segment_start(path@, start as int, a, b, i as int);
                }
            }
            start = i + 1;
        }
        i += 1;
    }
    assert(model::is_segment(path@, start as int, path@.len() as int));
    if is_ambiguous_segment(&chars, start, chars.len()) {
        return false;
    }
    assert forall|a: int, b: int| #[trigger]
        model::is_segment(path@, a, b) implies !model::ambiguous_segment(path@, a, b) by {
        if b >= start {
            lemma_segment_start(path@, start as int, a, b, path@.len() as int);
        }
    }
    true
}

/// A segment that ends behind the last slash starts there and reaches to the
/// next slash.
proof fn lemma_segment_start(path: Seq<char>, start: int, a: int, b: int, end: int)
    requires
        model::is_segment(path, a, b),
        model::is_segment(path, start, end),
        start <= b <= end,
    ensures
        a == start,
        b == end,
{
    if a < start {
        assert(path[start - 1] == '/');
    }
}

/// Tests for the empty segment, `.` and `..`.
fn is_ambiguous_segment(chars: &Vec<char>, start: usize, end: usize) -> (answer: bool)
    requires
        start <= end <= chars@.len(),
    ensures
        answer == model::ambiguous_segment(chars@, start as int, end as int),
{
    let length: usize = end - start;
    length == 0 || (length == 1 && chars[start] == '.') || (length == 2 && chars[start] == '.'
        && chars[start + 1] == '.')
}

/// An immutable version in a memory file's history.
#[derive(Debug, PartialEq, Eq)]
pub struct MemoryEntry {
    pub(crate) path: String,
    pub(crate) scope: MemoryScope,
    pub(crate) version: u64,
    pub(crate) content: String,
    pub(crate) content_hash: String,
    pub(crate) written_by: String,
    pub(crate) session_id: String,
    pub(crate) sequence: u64,
    pub(crate) written_at_unix_ms: u128,
}

impl View for MemoryEntry {
    type V = Record;

    closed spec fn view(&self) -> Record {
        self.record()
    }
}

impl Clone for MemoryEntry {
    fn clone(&self) -> (copy: Self)
        ensures
            copy@ == self@,
    {
        MemoryEntry {
            path: text::owned(self.path.as_str()),
            scope: self.scope.clone(),
            version: self.version,
            content: text::owned(self.content.as_str()),
            content_hash: text::owned(self.content_hash.as_str()),
            written_by: text::owned(self.written_by.as_str()),
            session_id: text::owned(self.session_id.as_str()),
            sequence: self.sequence,
            written_at_unix_ms: self.written_at_unix_ms,
        }
    }
}

impl MemoryEntry {
    pub(crate) open spec fn record(self) -> Record {
        Record {
            path: self.path@,
            scope: self.scope@,
            version: self.version,
            content: self.content@,
            content_hash: self.content_hash@,
            written_by: self.written_by@,
            session_id: self.session_id@,
            sequence: self.sequence,
            written_at_unix_ms: self.written_at_unix_ms,
        }
    }

    pub(crate) proof fn lemma_view(&self)
        ensures
            self@ == self.record(),
    {
    }

    /// Returns the memory path.
    pub fn path(&self) -> (path: &str)
        ensures
            path@ == self@.path,
    {
        self.path.as_str()
    }

    /// Returns the memory scope.
    pub fn scope(&self) -> (scope: &MemoryScope)
        ensures
            scope@ == self@.scope,
    {
        &self.scope
    }

    /// Returns this path's monotonically increasing version.
    pub fn version(&self) -> (version: u64)
        ensures
            version == self@.version,
    {
        self.version
    }

    /// Returns the stored content.
    pub fn content(&self) -> (content: &str)
        ensures
            content@ == self@.content,
    {
        self.content.as_str()
    }

    /// Returns the SHA-256 content hash used for compare-and-swap writes.
    pub fn content_hash(&self) -> (hash: &str)
        ensures
            hash@ == self@.content_hash,
    {
        self.content_hash.as_str()
    }

    /// Returns the principal that wrote this version.
    pub fn written_by(&self) -> (id: &str)
        ensures
            id@ == self@.written_by,
    {
        self.written_by.as_str()
    }

    /// Returns the originating session identifier.
    pub fn session_id(&self) -> (id: &str)
        ensures
            id@ == self@.session_id,
    {
        self.session_id.as_str()
    }

    /// Returns the store-wide logical sequence number.
    pub fn sequence(&self) -> (sequence: u64)
        ensures
            sequence == self@.sequence,
    {
        self.sequence
    }

    /// Returns the wall-clock attribution time in Unix milliseconds.
    pub fn written_at_unix_ms(&self) -> (time: u128)
        ensures
            time == self@.written_at_unix_ms,
    {
        self.written_at_unix_ms
    }
}

/// Failures returned by memory authorization, validation, and CAS operations.
#[derive(Debug, Clone, PartialEq, Eq)]
pub enum MemoryError {
    InvalidPrincipal,
    InvalidSession,
    InvalidPath,
    InvalidScope,
    Missing { path: String },
    PermissionDenied { path: String },
    PreconditionRequired { path: String, actual_hash: String },
    Conflict { path: String, expected_hash: String, actual_hash: String },
    ScopeMismatch { path: String },
    InvalidVersion { path: String, version: u64 },
}

impl View for MemoryError {
    type V = Refusal;

    open spec fn view(&self) -> Refusal {
        match *self {
            MemoryError::InvalidPrincipal => Refusal::InvalidPrincipal,
            MemoryError::InvalidSession => Refusal::InvalidSession,
            MemoryError::InvalidPath => Refusal::InvalidPath,
            MemoryError::InvalidScope => Refusal::InvalidScope,
            MemoryError::Missing { path } => Refusal::Missing { path: path@ },
            MemoryError::PermissionDenied { path } => Refusal::PermissionDenied { path: path@ },
            MemoryError::PreconditionRequired { path, actual_hash } => {
                Refusal::PreconditionRequired { path: path@, actual_hash: actual_hash@ }
            },
            MemoryError::Conflict { path, expected_hash, actual_hash } => Refusal::Conflict {
                path: path@,
                expected_hash: expected_hash@,
                actual_hash: actual_hash@,
            },
            MemoryError::ScopeMismatch { path } => Refusal::ScopeMismatch { path: path@ },
            MemoryError::InvalidVersion { path, version } => Refusal::InvalidVersion {
                path: path@,
                version,
            },
        }
    }
}

/// The text that describes a refusal.
pub open spec fn refusal_text(refusal: Refusal) -> Seq<char> {
    match refusal {
        Refusal::InvalidPrincipal => "principal identifier is invalid"@,
        Refusal::InvalidSession => "session identifier is invalid"@,
        Refusal::InvalidPath => "memory path is invalid"@,
        Refusal::InvalidScope => "memory scope is invalid"@,
        Refusal::Missing { path } => "memory path "@ + path + " does not exist"@,
        Refusal::PermissionDenied { path } => "principal is not authorized for memory path "@
            + path,
        Refusal::PreconditionRequired { path, actual_hash } => "memory path "@ + path
            + " requires a compare-and-swap precondition; current hash is "@ + actual_hash,
        Refusal::Conflict { path, expected_hash, actual_hash } => "memory path "@ + path
            + " changed: expected "@ + expected_hash + ", found "@ + actual_hash,
        Refusal::ScopeMismatch { path } => "memory path "@ + path + " cannot change scope"@,
        Refusal::InvalidVersion { path, version } => "memory path "@ + path + " has no version "@
            + text::decimal(version as nat),
    }
}

impl MemoryError {
    /// Describes this error in one sentence.
    pub fn message(&self) -> (text: String)
        ensures
            text@ == refusal_text(self@),
    {
        let mut text = String::new();
        match self {
            MemoryError::InvalidPrincipal => text.append("principal identifier is invalid"),
            MemoryError::InvalidSession => text.append("session identifier is invalid"),
            MemoryError::InvalidPath => text.append("memory path is invalid"),
            MemoryError::InvalidScope => text.append("memory scope is invalid"),
            MemoryError::Missing { path } => {
                text.append("memory path ");
                text.append(path.as_str());
                text.append(" does not exist");
            },
            MemoryError::PermissionDenied { path } => {
                text.append("principal is not authorized for memory path ");
                text.append(path.as_str());
            },
            MemoryError::PreconditionRequired { path, actual_hash } => {
                text.append("memory path ");
                text.append(path.as_str());
                text.append(" requires a compare-and-swap precondition; current hash is ");
                text.append(actual_hash.as_str());
            },
            MemoryError::Conflict { path, expected_hash, actual_hash } => {
                text.append("memory path ");
                text.append(path.as_str());
                text.append(" changed: expected ");
                text.append(expected_hash.as_str());
                text.append(", found ");
                text.append(actual_hash.as_str());
            },
            MemoryError::ScopeMismatch { path } => {
                text.append("memory path ");
                text.append(path.as_str());
                text.append(" cannot change scope");
            },
            MemoryError::InvalidVersion { path, version } => {
                text.append("memory path ");
                text.append(path.as_str());
                text.append(" has no version ");
                text::push_decimal(&mut text, *version);
            },
        }
        assert(text@ =~= refusal_text(self@));
        text
    }
}

/// One agent session transcript supplied to a dreaming curator.
#[derive(Debug, PartialEq, Eq)]
pub struct SessionTranscript {
    agent_id: String,
    session_id: String,
    content: String,
}

/// A session transcript, as a mathematical value.
#[verifier::ext_equal]
pub struct Transcript {
    pub agent_id: Seq<char>,
    pub session_id: Seq<char>,
    pub content: Seq<char>,
}

impl View for SessionTranscript {
    type V = Transcript;

    closed spec fn view(&self) -> Transcript {
        Transcript {
            agent_id: self.agent_id@,
            session_id: self.session_id@,
            content: self.content@,
        }
    }
}

impl Clone for SessionTranscript {
    fn clone(&self) -> (copy: Self)
        ensures
            copy@ == self@,
    {
        proof {
            use_type_invariant(self);
        }
        SessionTranscript {
            agent_id: text::owned(self.agent_id.as_str()),
            session_id: text::owned(self.session_id.as_str()),
            content: text::owned(self.content.as_str()),
        }
    }
}

impl SessionTranscript {
    #[verifier::type_invariant]
    spec fn well_formed(self) -> bool {
        model::valid_identifier(self.agent_id@) && model::valid_identifier(self.session_id@)
    }

    /// Creates a transcript with explicit agent and session attribution.
    pub fn new(agent_id: &str, session_id: &str, content: &str) -> (result: Result<
        Self,
        MemoryError,
    >)
        ensures
            match result {
                Ok(transcript) => {
                    &&& model::valid_identifier(agent_id@)
                    &&& model::valid_identifier(session_id@)
                    &&& transcript@ == (Transcript {
                        agent_id: agent_id@,
                        session_id: session_id@,
                        content: content@,
                    })
                },
                Err(error) => if !model::valid_identifier(agent_id@) {
                    error@ == Refusal::InvalidPrincipal
                } else {
                    !model::valid_identifier(session_id@) && error@ == Refusal::InvalidSession
                },
            },
    {
        if !is_identifier(agent_id) {
            return Err(MemoryError::InvalidPrincipal);
        }
        if !is_identifier(session_id) {
            return Err(MemoryError::InvalidSession);
        }
        Ok(
            SessionTranscript {
                agent_id: text::owned(agent_id),
                session_id: text::owned(session_id),
                content: text::owned(content),
            },
        )
    }

    /// Returns the originating agent identifier.
    pub fn agent_id(&self) -> (id: &str)
        ensures
            id@ == self@.agent_id,
            model::valid_identifier(id@),
    {
        proof {
            use_type_invariant(self);
        }
        self.agent_id.as_str()
    }

    /// Returns the originating session identifier.
    pub fn session_id(&self) -> (id: &str)
        ensures
            id@ == self@.session_id,
            model::valid_identifier(id@),
    {
        proof {
            use_type_invariant(self);
        }
        self.session_id.as_str()
    }

    /// Returns the raw transcript content.
    pub fn content(&self) -> (content: &str)
        ensures
            content@ == self@.content,
    {
        self.content.as_str()
    }
}

} // verus!
