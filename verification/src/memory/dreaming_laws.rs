//! What dreaming passes come to.

use vstd::prelude::*;

use crate::memory::laws;
use crate::memory::model;
use crate::memory::model::{Actor, PrincipalRole, Request, Store};
use crate::memory::store;
use crate::memory::store::{DreamingPass, MemoryStore};
use crate::memory::types::{MemoryError, MemoryWrite, Principal, SessionTranscript};

verus! {

/// Current versions of two stores agree at every path.
pub open spec fn agree(a: Store, b: Store) -> bool {
    forall|path: Seq<char>| #[trigger] laws::current_versions_agree(a, b, path)
}

/// A pass is begun by an orchestrator, with copies of the store to read and to
/// write.
pub proof fn law_passes_begin_with_copies(
    memory: &MemoryStore,
    principal: &Principal,
    result: Result<DreamingPass, MemoryError>,
)
    requires
        call_ensures(MemoryStore::start_dreaming, (memory, principal), result),
    ensures
        result is Ok <==> principal@.role == PrincipalRole::Orchestrator,
        result matches Ok(pass) ==> pass@.input == memory@ && pass@.output == memory@,
{
}

/// A pass that was begun is committed by an orchestrator to a store whose current
/// versions are still those that it began with. The store then is what the pass
/// made of it. Otherwise it stays as it is, unless digests collide.
pub proof fn law_passes_are_committed_to_unchanged_stores(
    memory: &MemoryStore,
    starter: &Principal,
    begun: DreamingPass,
    pass: DreamingPass,
    principal: &Principal,
    target: &mut MemoryStore,
    result: Result<(), MemoryError>,
)
    requires
        call_ensures(
            MemoryStore::start_dreaming,
            (memory, starter),
            Ok::<DreamingPass, MemoryError>(begun),
        ),
        pass@.base_hash == begun@.base_hash,
        model::valid_store(memory@),
        model::valid_store(old(target)@),
        call_ensures(DreamingPass::commit, (pass, principal, target), result),
    ensures
        result is Ok ==> {
            &&& principal@.role == PrincipalRole::Orchestrator
            &&& agree(old(target)@, memory@) || laws::digests_collide()
            &&& final(target)@ == pass@.output
        },
        result is Err ==> final(target)@ == old(target)@,
        result is Err && principal@.role != PrincipalRole::Orchestrator
            ==> result->Err_0@ is PermissionDenied,
        result is Err && principal@.role == PrincipalRole::Orchestrator ==> {
            &&& result->Err_0@ is Conflict
            &&& result->Err_0@->Conflict_expected_hash == begun@.base_hash
            &&& result->Err_0@->Conflict_actual_hash != begun@.base_hash
        },
        principal@.role == PrincipalRole::Orchestrator && agree(old(target)@, memory@)
            ==> result is Ok,
{
    laws::law_state_hash_goes_by_current_versions(old(target)@, memory@);
}

/// A store is written to once, by a request that is not refused.
pub open spec fn written(before: Store, after: Store, actor: Actor, request: Request) -> bool {
    exists|time: u128|
        {
            &&& #[trigger] model::write_answer(before, actor, request, time) is Ok
            &&& after == model::store_after_write(before, actor, request, time)
        }
}

/// `states` are those of a store that is written to by the first requests, one
/// after the other.
pub open spec fn written_in_order(
    states: Seq<Store>,
    actor: Actor,
    requests: Seq<Request>,
    count: nat,
) -> bool {
    &&& states.len() == count + 1
    &&& count <= requests.len()
    &&& forall|i: int|
        0 <= i < count ==> written(#[trigger] states[i], states[i + 1], actor, requests[i])
}

/// How a store comes about by requests of which the first refused one ends them.
proof fn lemma_written(
    before: Store,
    actor: Actor,
    requests: Seq<Request>,
    times: Seq<u128>,
) -> (states: Seq<Store>)
    requires
        times.len() == requests.len(),
    ensures
        states.len() > 0,
        states[0] == before,
        states.last() == store::store_after_writes(before, actor, requests, times),
        written_in_order(states, actor, requests, (states.len() - 1) as nat),
        match store::first_refusal(before, actor, requests, times) {
            None => states.len() == requests.len() + 1,
            Some(refusal) => {
                &&& states.len() <= requests.len()
                &&& model::write_refusal(
                    states.last().histories,
                    actor,
                    requests[states.len() - 1],
                ) == Some(refusal)
            },
        },
    decreases requests.len(),
{
    if requests.len() == 0 {
        seq![before]
    } else if model::write_refusal(before.histories, actor, requests[0]) is Some {
        seq![before]
    } else {
        let after = model::store_after_write(before, actor, requests[0], times[0]);
        let rest = lemma_written(after, actor, requests.drop_first(), times.drop_first());
        let states = seq![before] + rest;
        assert(model::write_answer(before, actor, requests[0], times[0]) is Ok);
        assert(written(before, after, actor, requests[0]));
        assert forall|i: int| 0 <= i < states.len() - 1 implies written(
            #[trigger] states[i],
            states[i + 1],
            actor,
            requests[i],
        ) by {
            if i > 0 {
                assert(written(rest[i - 1], rest[i], actor, requests.drop_first()[i - 1]));
            }
        }
        assert(states.last() == rest.last());
        states
    }
}

/// A session writes what its curator proposes, one request after the other, to the
/// output of a pass. The curator sees what the pass began with, which does not
/// change. A request that is refused ends the session, and those before it stay
/// written.
pub proof fn law_sessions_write_what_is_proposed<F>(
    pass: &mut DreamingPass,
    principal: &Principal,
    transcript: &SessionTranscript,
    curator: F,
    result: Result<usize, MemoryError>,
) where F: FnOnce(&MemoryStore, &SessionTranscript) -> Result<Vec<MemoryWrite>, MemoryError>
    requires
        call_ensures(
            DreamingPass::curate_session::<F>,
            (pass, principal, transcript, curator),
            result,
        ),
    ensures
        final(pass)@.input == old(pass)@.input,
        final(pass)@.base_hash == old(pass)@.base_hash,
        exists|proposal: Result<Vec<MemoryWrite>, MemoryError>|
            {
                &&& #[trigger] call_ensures(
                    curator,
                    (&old(pass).spec_input(), transcript),
                    proposal,
                )
                &&& proposal is Err ==> result is Err && final(pass)@.output == old(pass)@.output
                &&& proposal matches Ok(writes) ==> exists|states: Seq<Store>, count: nat|
                    {
                        &&& #[trigger] written_in_order(
                            states,
                            principal@,
                            store::requests_of(writes@),
                            count,
                        )
                        &&& states[0] == old(pass)@.output
                        &&& states[count as int] == final(pass)@.output
                        &&& result is Ok <==> count == writes@.len()
                        &&& result is Ok ==> result->Ok_0 == writes@.len()
                        &&& result matches Err(error) ==> model::write_refusal(
                            final(pass)@.output.histories,
                            principal@,
                            writes@[count as int]@,
                        ) == Some(error@)
                    }
            },
{
    let proposal = choose|proposal: Result<Vec<MemoryWrite>, MemoryError>| #[trigger]
        call_ensures(curator, (&old(pass).spec_input(), transcript), proposal)
            && match proposal {
            Err(error) => final(pass)@ == old(pass)@ && result == Err::<usize, MemoryError>(error),
            Ok(writes) => exists|times: Seq<u128>| #[trigger]
                store::session_outcome(
                    old(pass)@,
                    final(pass)@,
                    result,
                    principal@,
                    store::requests_of(writes@),
                    times,
                ),
        };
    if let Ok(writes) = proposal {
        let requests = store::requests_of(writes@);
        let times = choose|times: Seq<u128>| #[trigger]
            store::session_outcome(
                old(pass)@,
                final(pass)@,
                result,
                principal@,
                requests,
                times,
            );
        let states = lemma_written(old(pass)@.output, principal@, requests, times);
        let count = (states.len() - 1) as nat;
        assert(written_in_order(states, principal@, requests, count));
        assert(states.last() == states[count as int]);
    }
}

} // verus!
