use ggml::memory::clock::recorded_time;
use ggml::memory::model::PrincipalRole;
use ggml::memory::store::MemoryStore;
use ggml::memory::types::{MemoryError, MemoryScope, MemoryWrite, Principal, SessionTranscript};

#[test]
fn versions_are_attributed_and_cas_protected() {
    let orchestrator = Principal::orchestrator("orchestrator").unwrap();
    let agent = Principal::agent("agent-a").unwrap();
    let reader = Principal::reader("viewer").unwrap();
    let mut store = MemoryStore::new();
    let first = store
        .write(
            &orchestrator,
            MemoryWrite::new(
                MemoryScope::Shared,
                "team/conventions.md",
                "use rustfmt",
                "session-1",
            )
            .unwrap(),
        )
        .unwrap();
    assert_eq!(first.version(), 1);
    assert_eq!(first.written_by(), "orchestrator");
    assert!(first.written_at_unix_ms() > 0);
    assert_eq!(store.read(&reader, "team/conventions.md").unwrap(), first);

    let agent_memory = store
        .write(
            &agent,
            MemoryWrite::new(
                MemoryScope::Agent("agent-a".to_owned()),
                "notes/last-run.md",
                "ship passed",
                "session-2",
            )
            .unwrap(),
        )
        .unwrap();
    assert_eq!(agent_memory.version(), 1);
    assert!(matches!(
        store.read(&reader, "notes/last-run.md"),
        Err(MemoryError::PermissionDenied { .. })
    ));
    assert!(matches!(
        store.write(
            &agent,
            MemoryWrite::new(
                MemoryScope::Shared,
                "team/conventions.md",
                "overwrite",
                "session-3",
            )
            .unwrap(),
        ),
        Err(MemoryError::PermissionDenied { .. })
    ));
    assert!(matches!(
        store.write(
            &orchestrator,
            MemoryWrite::new(
                MemoryScope::Agent("agent-a".to_owned()),
                "team/conventions.md",
                "wrong scope",
                "session-3b",
            )
            .unwrap()
            .with_expected_hash(first.content_hash()),
        ),
        Err(MemoryError::ScopeMismatch { .. })
    ));

    let conflict = store.write(
        &orchestrator,
        MemoryWrite::new(
            MemoryScope::Shared,
            "team/conventions.md",
            "new",
            "session-4",
        )
        .unwrap()
        .with_expected_hash("sha256:stale"),
    );
    assert!(matches!(conflict, Err(MemoryError::Conflict { .. })));
    let second = store
        .write(
            &orchestrator,
            MemoryWrite::new(
                MemoryScope::Shared,
                "team/conventions.md",
                "new",
                "session-4",
            )
            .unwrap()
            .with_expected_hash(first.content_hash()),
        )
        .unwrap();
    assert_eq!(second.version(), 2);
    assert_eq!(
        store.history(&reader, "team/conventions.md").unwrap().len(),
        2
    );
}

#[test]
fn dreaming_clones_then_atomically_commits_curated_sessions() {
    let orchestrator = Principal::orchestrator("orchestrator").unwrap();
    let curator = Principal::agent("agent-a").unwrap();
    let mut store = MemoryStore::new();
    store
        .write(
            &orchestrator,
            MemoryWrite::new(MemoryScope::Shared, "team/context.md", "initial", "seed")
                .unwrap(),
        )
        .unwrap();
    let mut pass = store.start_dreaming(&orchestrator).unwrap();
    let transcript =
        SessionTranscript::new("agent-a", "session-10", "deploy succeeded").unwrap();
    let applied = pass
        .curate_session(&curator, &transcript, |input, transcript| {
            assert_eq!(
                input
                    .read(&orchestrator, "team/context.md")
                    .unwrap()
                    .content(),
                "initial"
            );
            Ok(vec![MemoryWrite::new(
                MemoryScope::Agent(transcript.agent_id().to_owned()),
                "notes/deploy.md",
                transcript.content(),
                transcript.session_id(),
            )?])
        })
        .unwrap();
    assert_eq!(applied, 1);
    assert!(matches!(
        store.read(&orchestrator, "notes/deploy.md"),
        Err(MemoryError::Missing { .. })
    ));
    pass.commit(&orchestrator, &mut store).unwrap();
    assert_eq!(
        store.read(&curator, "notes/deploy.md").unwrap().content(),
        "deploy succeeded"
    );

    let mut stale_pass = store.start_dreaming(&orchestrator).unwrap();
    let stale_transcript = SessionTranscript::new("agent-a", "session-11", "stale").unwrap();
    stale_pass
        .curate_session(&curator, &stale_transcript, |_, transcript| {
            Ok(vec![MemoryWrite::new(
                MemoryScope::Agent(transcript.agent_id().to_owned()),
                "notes/stale.md",
                transcript.content(),
                transcript.session_id(),
            )?])
        })
        .unwrap();
    store
        .write(
            &orchestrator,
            MemoryWrite::new(
                MemoryScope::Shared,
                "team/context.md",
                "changed live",
                "live-session",
            )
            .unwrap()
            .with_expected_hash(
                store
                    .read(&orchestrator, "team/context.md")
                    .unwrap()
                    .content_hash(),
            ),
        )
        .unwrap();
    assert!(matches!(
        stale_pass.commit(&orchestrator, &mut store),
        Err(MemoryError::Conflict { path, .. }) if path == "<store>"
    ));
}

#[test]
fn rejects_ambiguous_paths_and_invalid_principals() {
    assert!(matches!(
        Principal::agent(""),
        Err(MemoryError::InvalidPrincipal)
    ));
    assert!(matches!(
        MemoryWrite::new(MemoryScope::Shared, "../secret", "x", "s"),
        Err(MemoryError::InvalidPath)
    ));
    assert!(matches!(
        MemoryWrite::new(MemoryScope::Agent(String::new()), "x.md", "x", "s"),
        Err(MemoryError::InvalidScope)
    ));
}

fn shared(path: &str, content: &str, session: &str) -> MemoryWrite {
    MemoryWrite::new(MemoryScope::Shared, path, content, session).unwrap()
}

#[test]
fn entries_carry_the_digest_of_their_content() {
    let orchestrator = Principal::orchestrator("o").unwrap();
    let mut store = MemoryStore::new();
    let entry = store.write(&orchestrator, shared("a.md", "use rustfmt", "s")).unwrap();
    assert_eq!(
        entry.content_hash(),
        "sha256:f5a9bdc036fa452df9a65589c68be354847d4a5bc8e65352cca82b53c192e2dd"
    );
    assert_eq!(entry.path(), "a.md");
    assert_eq!(entry.session_id(), "s");
    assert_eq!(entry.sequence(), 1);
    assert_eq!(entry.scope(), &MemoryScope::Shared);
}

#[test]
fn replacing_a_memory_needs_its_hash() {
    let orchestrator = Principal::orchestrator("o").unwrap();
    let mut store = MemoryStore::new();
    let first = store.write(&orchestrator, shared("a.md", "one", "s")).unwrap();
    let refused = store.write(&orchestrator, shared("a.md", "two", "s")).unwrap_err();
    assert_eq!(
        refused,
        MemoryError::PreconditionRequired {
            path: "a.md".to_owned(),
            actual_hash: first.content_hash().to_owned(),
        }
    );
    assert_eq!(store.read(&orchestrator, "a.md").unwrap(), first);
    let expecting = shared("b.md", "x", "s").with_expected_hash(first.content_hash());
    assert!(matches!(
        store.write(&orchestrator, expecting),
        Err(MemoryError::Conflict { .. })
    ));
}

#[test]
fn one_of_two_writers_with_the_same_hash_wins() {
    let orchestrator = Principal::orchestrator("o").unwrap();
    let mut store = MemoryStore::new();
    let first = store.write(&orchestrator, shared("a.md", "one", "s")).unwrap();
    let second = store
        .write(&orchestrator, shared("a.md", "two", "s").with_expected_hash(first.content_hash()))
        .unwrap();
    assert!(matches!(
        store.write(
            &orchestrator,
            shared("a.md", "three", "s").with_expected_hash(first.content_hash())
        ),
        Err(MemoryError::Conflict { actual_hash, .. }) if actual_hash == second.content_hash()
    ));
    assert_eq!(store.read_version(&orchestrator, "a.md", 1).unwrap(), first);
    assert_eq!(store.read_version(&orchestrator, "a.md", 2).unwrap(), second);
    assert_eq!(
        store.read_version(&orchestrator, "a.md", 3).unwrap_err(),
        MemoryError::InvalidVersion { path: "a.md".to_owned(), version: 3 }
    );
    assert_eq!(
        store.read_version(&orchestrator, "a.md", 0).unwrap_err(),
        MemoryError::InvalidVersion { path: "a.md".to_owned(), version: 0 }
    );
    let history = store.history(&orchestrator, "a.md").unwrap();
    assert_eq!(history.len(), 2);
    assert_eq!(history[0], first);
    assert_eq!(history[1], second);
}

#[test]
fn refused_writes_leave_the_store_as_it_is() {
    let orchestrator = Principal::orchestrator("o").unwrap();
    let agent = Principal::agent("a").unwrap();
    let mut store = MemoryStore::new();
    store.write(&orchestrator, shared("a.md", "one", "s")).unwrap();
    let before = store.state_hash();
    assert!(store.write(&agent, shared("b.md", "two", "s")).is_err());
    assert_eq!(store.state_hash(), before);
    store.write(&orchestrator, shared("b.md", "two", "s")).unwrap();
    assert_ne!(store.state_hash(), before);
}

#[test]
fn agents_write_their_own_memory_only() {
    let one = Principal::agent("one").unwrap();
    let other = Principal::agent("other").unwrap();
    let mut store = MemoryStore::new();
    let write = || {
        MemoryWrite::new(MemoryScope::Agent("one".to_owned()), "n.md", "x", "s").unwrap()
    };
    assert!(matches!(
        store.write(&other, write()),
        Err(MemoryError::PermissionDenied { path }) if path == "n.md"
    ));
    store.write(&one, write()).unwrap();
    assert!(matches!(
        store.read(&other, "n.md"),
        Err(MemoryError::PermissionDenied { .. })
    ));
    assert_eq!(store.read(&one, "n.md").unwrap().content(), "x");
    assert!(matches!(
        store.read(&one, "missing.md"),
        Err(MemoryError::Missing { path }) if path == "missing.md"
    ));
}

#[test]
fn clones_are_independent_stores() {
    let orchestrator = Principal::orchestrator("o").unwrap();
    let mut store = MemoryStore::default();
    store.write(&orchestrator, shared("a.md", "one", "s")).unwrap();
    let copy = store.clone();
    store.write(&orchestrator, shared("b.md", "two", "s")).unwrap();
    assert!(copy.read(&orchestrator, "b.md").is_err());
    assert_eq!(copy.read(&orchestrator, "a.md").unwrap().content(), "one");
}

#[test]
fn only_orchestrators_start_and_commit_passes() {
    let orchestrator = Principal::orchestrator("o").unwrap();
    let agent = Principal::agent("a").unwrap();
    let reader = Principal::reader("r").unwrap();
    let mut store = MemoryStore::new();
    assert!(store.start_dreaming(&agent).is_err());
    assert!(store.start_dreaming(&reader).is_err());
    let pass = store.start_dreaming(&orchestrator).unwrap();
    assert!(pass.commit(&agent, &mut store).is_err());
}

#[test]
fn sessions_stop_at_the_first_refused_write() {
    let orchestrator = Principal::orchestrator("o").unwrap();
    let agent = Principal::agent("a").unwrap();
    let store = MemoryStore::new();
    let mut pass = store.start_dreaming(&orchestrator).unwrap();
    let transcript = SessionTranscript::new("a", "s", "text").unwrap();
    let before = pass.output().state_hash();
    let result = pass.curate_session(&agent, &transcript, |_, _| {
        Ok(vec![
            MemoryWrite::new(MemoryScope::Agent("a".to_owned()), "one.md", "x", "s")?,
            MemoryWrite::new(MemoryScope::Shared, "two.md", "x", "s")?,
        ])
    });
    assert!(matches!(result, Err(MemoryError::PermissionDenied { .. })));
    assert_eq!(pass.input().state_hash(), before);
    assert_ne!(pass.output().state_hash(), before);
    assert_eq!(pass.output().read(&agent, "one.md").unwrap().content(), "x");
    assert!(pass.output().read(&agent, "two.md").is_err());
}

#[test]
fn accessors_return_what_was_given() {
    let principal = Principal::reader("viewer").unwrap();
    assert_eq!(principal.id(), "viewer");
    assert_eq!(principal.role(), PrincipalRole::Reader);
    let write = shared("a/b.md", "c", "s");
    assert_eq!(write.path(), "a/b.md");
    assert_eq!(write.scope(), &MemoryScope::Shared);
    let transcript = SessionTranscript::new("a", "s", "c").unwrap();
    assert_eq!(transcript.agent_id(), "a");
    assert_eq!(transcript.session_id(), "s");
    assert_eq!(transcript.content(), "c");
    assert!(matches!(
        SessionTranscript::new("a", "", "c"),
        Err(MemoryError::InvalidSession)
    ));
}

#[test]
fn memory_errors_describe_themselves() {
    let path = || "a.md".to_owned();
    assert_eq!(MemoryError::InvalidPrincipal.message(), "principal identifier is invalid");
    assert_eq!(MemoryError::InvalidSession.message(), "session identifier is invalid");
    assert_eq!(MemoryError::InvalidPath.message(), "memory path is invalid");
    assert_eq!(MemoryError::InvalidScope.message(), "memory scope is invalid");
    assert_eq!(
        MemoryError::Missing { path: path() }.message(),
        "memory path a.md does not exist"
    );
    assert_eq!(
        MemoryError::PermissionDenied { path: path() }.message(),
        "principal is not authorized for memory path a.md"
    );
    assert_eq!(
        MemoryError::PreconditionRequired { path: path(), actual_hash: "h".to_owned() }.message(),
        "memory path a.md requires a compare-and-swap precondition; current hash is h"
    );
    assert_eq!(
        MemoryError::Conflict {
            path: path(),
            expected_hash: "e".to_owned(),
            actual_hash: "h".to_owned(),
        }
        .message(),
        "memory path a.md changed: expected e, found h"
    );
    assert_eq!(
        MemoryError::ScopeMismatch { path: path() }.message(),
        "memory path a.md cannot change scope"
    );
    assert_eq!(
        MemoryError::InvalidVersion { path: path(), version: 3 }.message(),
        "memory path a.md has no version 3"
    );
    let refused = MemoryWrite::new(MemoryScope::Shared, "/a", "x", "s").unwrap_err();
    assert_eq!(refused, MemoryError::InvalidPath);
}

#[test]
fn clocks_before_the_epoch_record_zero() {
    assert_eq!(recorded_time(Some(1_700_000_000_123)), 1_700_000_000_123);
    assert_eq!(recorded_time(None), 0);
}

#[test]
fn every_write_changes_the_state_hash() {
    let agent = Principal::agent("agent-a").unwrap();
    let scope = MemoryScope::Agent("agent-a".to_owned());
    let mut store = MemoryStore::new();
    let mut hashes = vec![store.state_hash()];
    let mut expected_hash = String::new();
    for _ in 0..3 {
        let request = MemoryWrite::new(scope.clone(), "notes.md", "same content", "session")
            .unwrap()
            .with_expected_hash(&expected_hash);
        let entry = store.write(&agent, request).unwrap();
        expected_hash = entry.content_hash().to_owned();
        assert!(!hashes.contains(&store.state_hash()));
        hashes.push(store.state_hash());
    }
    assert_eq!(store.read(&agent, "notes.md").unwrap().version(), 3);
}

#[test]
fn paths_without_a_version_are_missing_after_a_refused_write() {
    let orchestrator = Principal::orchestrator("o").unwrap();
    let mut store = MemoryStore::new();
    let stale = shared("a.md", "x", "s").with_expected_hash("sha256:stale");
    assert!(matches!(
        store.write(&orchestrator, stale),
        Err(MemoryError::Conflict { .. })
    ));
    let missing = MemoryError::Missing {
        path: "a.md".to_owned(),
    };
    assert_eq!(store.history(&orchestrator, "a.md"), Err(missing.clone()));
    assert_eq!(store.read(&orchestrator, "a.md"), Err(missing.clone()));
    assert_eq!(store.read_version(&orchestrator, "a.md", 1), Err(missing));
    assert_eq!(store, MemoryStore::new());
}

#[test]
fn state_hashes_go_by_current_versions_alone() {
    let one = Principal::orchestrator("one").unwrap();
    let other = Principal::orchestrator("other").unwrap();
    let mut left = MemoryStore::new();
    left.write(&one, shared("a.md", "first", "s")).unwrap();
    left.write(&one, shared("b.md", "second", "s")).unwrap();
    let mut right = MemoryStore::new();
    right.write(&other, shared("b.md", "second", "t")).unwrap();
    right.write(&other, shared("a.md", "first", "t")).unwrap();
    assert_eq!(left.state_hash(), right.state_hash());
    let head = right.read(&other, "a.md").unwrap();
    let next = shared("a.md", "third", "t").with_expected_hash(head.content_hash());
    let entry = right.write(&other, next).unwrap();
    assert!(head.sequence() < entry.sequence());
    assert_ne!(left.state_hash(), right.state_hash());
}
