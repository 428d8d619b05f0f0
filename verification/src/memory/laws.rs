//! What holds of every store.

use vstd::prelude::*;
use vstd::utf8;

use crate::bytes;
use crate::digest;
use crate::memory::model;
use crate::memory::model::{Actor, History, PrincipalRole, Refusal, Request, Scope, Store};
use crate::text;

verus! {

/// Where a path stands among sorted histories.
pub(crate) proof fn lemma_slot(histories: Seq<History>, path: Seq<char>)
    requires
        model::paths_sorted(histories),
    ensures
        model::slot(histories, path) <= histories.len(),
        forall|i: int|
            0 <= i < model::slot(histories, path) ==> model::path_before(
                (#[trigger] histories[i]).path,
                path,
            ),
        forall|i: int|
            model::slot(histories, path) <= i < histories.len() ==> (#[trigger] histories[i]).path
                == path || model::path_before(path, histories[i].path),
        model::slot(histories, path) < histories.len() && !model::has_history(histories, path)
            ==> model::path_before(path, histories[model::slot(histories, path) as int].path),
        forall|i: int|
            0 <= i < histories.len() && (#[trigger] histories[i]).path == path ==> i
                == model::slot(histories, path),
    decreases histories.len(),
{
    if histories.len() > 0 {
        let first = histories[0].path;
        let rest = histories.drop_first();
        let a = utf8::encode_utf8(first);
        let b = utf8::encode_utf8(path);
        text::lemma_lex_less_total(a, b);
        text::lemma_bytes_determine_chars(first, path);
        text::lemma_lex_less_irreflexive(b);
        assert(model::paths_sorted(rest)) by {
            assert forall|i: int, j: int| 0 <= i < j < rest.len() implies model::path_before(
                (#[trigger] rest[i]).path,
                (#[trigger] rest[j]).path,
            ) by {
                assert(rest[i] == histories[i + 1]);
                assert(rest[j] == histories[j + 1]);
            }
        }
        if model::path_before(first, path) {
            lemma_slot(rest, path);
            let at = model::slot(rest, path);
            assert forall|i: int| 0 <= i < at + 1 implies model::path_before(
                (#[trigger] histories[i]).path,
                path,
            ) by {
                if i > 0 {
                    assert(histories[i] == rest[i - 1]);
                }
            }
            assert forall|i: int| at + 1 <= i < histories.len() implies (
            #[trigger] histories[i]).path == path || model::path_before(
                path,
                histories[i].path,
            ) by {
                assert(histories[i] == rest[i - 1]);
            }
            assert forall|i: int|
                0 <= i < histories.len() && (#[trigger] histories[i]).path == path implies i == at
                + 1 by {
                if i > 0 {
                    assert(histories[i] == rest[i - 1]);
                }
            }
        } else {
            assert forall|i: int| 0 <= i < histories.len() implies (
            #[trigger] histories[i]).path == path || model::path_before(
                path,
                histories[i].path,
            ) by {
                if i > 0 && first != path {
                    text::lemma_lex_less_transitive(
                        b,
                        a,
                        utf8::encode_utf8(histories[i].path),
                    );
                }
            }
            assert forall|i: int|
                0 <= i < histories.len() && (#[trigger] histories[i]).path == path implies i
                == 0 by {
                if i > 0 {
                    assert(model::path_before(histories[0].path, histories[i].path));
                }
            }
        }
    }
}

/// A place for a history is made where its path belongs.
proof fn lemma_opened_sorted(histories: Seq<History>, path: Seq<char>)
    requires
        model::paths_sorted(histories),
    ensures
        model::paths_sorted(model::opened(histories, path)),
{
    lemma_slot(histories, path);
    if !model::has_history(histories, path) {
        let at = model::slot(histories, path) as int;
        let opened = histories.insert(at, History { path, records: seq![] });
        assert forall|i: int, j: int| 0 <= i < j < opened.len() implies model::path_before(
            (#[trigger] opened[i]).path,
            (#[trigger] opened[j]).path,
        ) by {
            let before = if i < at {
                histories[i]
            } else {
                histories[i - 1]
            };
            let after = if j < at {
                histories[j]
            } else {
                histories[j - 1]
            };
            if i == at {
                assert(after == histories[j - 1]);
                assert(after.path == path || model::path_before(path, after.path));
            } else if j == at {
                assert(before == histories[i]);
            }
        }
    }
}

/// The history at `path` of a valid store.
pub(crate) proof fn lemma_records_valid(store: Store, path: Seq<char>)
    requires
        model::valid_store(store),
        model::has_history(store.histories, path),
    ensures
        model::valid_history(
            History { path, records: model::records_at(store.histories, path) },
            store.sequence,
        ),
{
    let at = model::slot(store.histories, path) as int;
    assert(model::valid_history(store.histories[at], store.sequence));
}

/// Every write, refused or not, keeps a store valid: the paths stay sorted, a
/// path keeps its scope, versions go on counting from one, and writes come in
/// order.
pub proof fn law_writes_keep_stores_valid(
    store: Store,
    actor: Actor,
    request: Request,
    time: u128,
)
    requires
        model::valid_store(store),
        model::valid_request(request),
    ensures
        model::valid_store(model::store_after_write(store, actor, request, time)),
{
    let path = request.path;
    lemma_opened_sorted(store.histories, path);
    if model::write_refusal(store.histories, actor, request) is None {
        let after = model::store_after_write(store, actor, request, time);
        let record = model::written_record(store, actor, request, time);
        let opened = model::opened(store.histories, path);
        let at = model::slot(store.histories, path) as int;
        lemma_slot(store.histories, path);
        if model::has_history(store.histories, path) {
            lemma_records_valid(store, path);
        }
        lemma_digest_text_length(utf8::encode_utf8(request.content));
        let records = model::records_at(store.histories, path);
        assert forall|i: int, j: int| 0 <= i < j < after.histories.len() implies model::path_before(
            (#[trigger] after.histories[i]).path,
            (#[trigger] after.histories[j]).path,
        ) by {
            assert(opened[i].path == after.histories[i].path);
            assert(opened[j].path == after.histories[j].path);
        }
        assert forall|i: int| 0 <= i < after.histories.len() implies model::valid_history(
            #[trigger] after.histories[i],
            after.sequence,
        ) by {
            if i == at {
                let grown = after.histories[i].records;
                assert(grown == records.push(record));
                assert forall|k: int| 0 <= k < grown.len() implies ({
                    let version = #[trigger] grown[k];
                    &&& version.path == path
                    &&& version.scope == grown[0].scope
                    &&& model::valid_scope(version.scope)
                    &&& k < u64::MAX ==> version.version == k + 1
                    &&& version.content_hash == digest::digest_text_of(
                        utf8::encode_utf8(version.content),
                    )
                    &&& version.content_hash.len() == 71
                    &&& 1 <= version.sequence <= after.sequence
                }) by {
                    if k < records.len() {
                        assert(grown[k] == records[k]);
                        assert(grown[0] == records[0]);
                    } else if records.len() > 0 {
                        assert(grown[0] == records[0]);
                        assert(records.last() == records[records.len() - 1]);
                    }
                }
                assert forall|k: int, l: int|
                    0 <= k < l < grown.len() implies model::sequences_ordered(
                    #[trigger] grown[k],
                    #[trigger] grown[l],
                ) by {
                    assert(grown[k] == records[k]);
                    if l < records.len() {
                        assert(grown[l] == records[l]);
                    }
                }
            } else {
                assert(after.histories[i] == opened[i]);
                if model::has_history(store.histories, path) || i < at {
                    assert(opened[i] == store.histories[i]);
                } else {
                    assert(opened[i] == store.histories[i - 1]);
                }
                assert(model::valid_history(opened[i], store.sequence));
                assert forall|k: int| 0 <= k < opened[i].records.len() implies 1 <= (
                #[trigger] opened[i].records[k]).sequence <= after.sequence by {}
            }
        }
    }
}

/// The text form of a digest always has the same length.
pub(crate) proof fn lemma_digest_text_length(bytes: Seq<u8>)
    ensures
        digest::digest_text_of(bytes).len() == 71,
{
    reveal_strlit("sha256:");
    digest::lemma_hex_length(digest::sha256_of(bytes)@);
}

/// The history that stands at a path is the one found there.
proof fn lemma_found(histories: Seq<History>, path: Seq<char>, i: int)
    requires
        model::paths_sorted(histories),
        0 <= i < histories.len(),
        histories[i].path == path,
    ensures
        model::has_history(histories, path),
        model::records_at(histories, path) == histories[i].records,
{
    lemma_slot(histories, path);
}

/// What is found at a path after a write at another, or the same, path.
pub(crate) proof fn lemma_lookup_after_write(
    store: Store,
    actor: Actor,
    request: Request,
    time: u128,
    path: Seq<char>,
)
    requires
        model::valid_store(store),
        model::valid_request(request),
    ensures
        ({
            let after = model::store_after_write(store, actor, request, time);
            let records = model::records_at(store.histories, path);
            model::records_at(after.histories, path) == if path == request.path
                && model::write_refusal(store.histories, actor, request) is None {
                records.push(model::written_record(store, actor, request, time))
            } else {
                records
            }
        }),
{
    law_writes_keep_stores_valid(store, actor, request, time);
    let after = model::store_after_write(store, actor, request, time);
    let at = model::slot(store.histories, request.path) as int;
    let opened = model::opened(store.histories, request.path);
    lemma_slot(store.histories, request.path);
    lemma_slot(store.histories, path);
    lemma_slot(after.histories, path);
    if path == request.path {
        if after.histories != store.histories {
            assert(after.histories[at].path == path);
            lemma_found(after.histories, path, at);
        }
    } else if model::has_history(store.histories, path) {
        let i = model::slot(store.histories, path) as int;
        if after.histories != store.histories {
            let j = if model::has_history(store.histories, request.path) || i < at {
                i
            } else {
                i + 1
            };
            assert(opened[j] == store.histories[i]);
            assert(after.histories[j] == store.histories[i]);
            lemma_found(after.histories, path, j);
        }
    } else if model::has_history(after.histories, path) {
        let j = model::slot(after.histories, path) as int;
        assert(after.histories[j].path == path);
        assert(opened[j].path == path);
        if !model::has_history(store.histories, request.path) {
            if j < at {
                assert(store.histories[j].path == path);
            } else if j > at {
                assert(store.histories[j - 1].path == path);
            }
        } else {
            assert(store.histories[j].path == path);
        }
    }
}

/// A write is what the next read gives back, to everybody who may read it.
pub proof fn law_reads_see_writes(
    store: Store,
    actor: Actor,
    request: Request,
    time: u128,
    reader: Actor,
)
    requires
        model::valid_store(store),
        model::valid_request(request),
        model::write_refusal(store.histories, actor, request) is None,
    ensures
        ({
            let after = model::store_after_write(store, actor, request, time);
            model::read_answer(after, reader, request.path) == if model::may_read(
                reader,
                request.scope,
            ) {
                Ok(model::written_record(store, actor, request, time))
            } else {
                Err(Refusal::PermissionDenied { path: request.path })
            }
        }),
{
    lemma_lookup_after_write(store, actor, request, time, request.path);
}

/// A write leaves every other path as it was.
pub proof fn law_writes_are_local(
    store: Store,
    actor: Actor,
    request: Request,
    time: u128,
    reader: Actor,
    path: Seq<char>,
)
    requires
        model::valid_store(store),
        model::valid_request(request),
        path != request.path,
    ensures
        ({
            let after = model::store_after_write(store, actor, request, time);
            &&& model::records_at(after.histories, path) == model::records_at(
                store.histories,
                path,
            )
            &&& model::read_answer(after, reader, path) == model::read_answer(
                store,
                reader,
                path,
            )
        }),
{
    lemma_lookup_after_write(store, actor, request, time, path);
}

/// Histories only grow: no write changes or removes a version.
pub proof fn law_histories_only_grow(
    store: Store,
    actor: Actor,
    request: Request,
    time: u128,
    path: Seq<char>,
)
    requires
        model::valid_store(store),
        model::valid_request(request),
    ensures
        model::records_at(store.histories, path).is_prefix_of(
            model::records_at(
                model::store_after_write(store, actor, request, time).histories,
                path,
            ),
        ),
{
    lemma_lookup_after_write(store, actor, request, time, path);
}

/// The versions at a path count from one, and all belong to one scope.
pub proof fn law_versions_count(store: Store, path: Seq<char>, i: int)
    requires
        model::valid_store(store),
        0 <= i < model::records_at(store.histories, path).len(),
        i < u64::MAX,
    ensures
        ({
            let records = model::records_at(store.histories, path);
            &&& records[i].version == i + 1
            &&& records[i].path == path
            &&& records[i].scope == records.last().scope
        }),
{
    lemma_records_valid(store, path);
    let records = model::records_at(store.histories, path);
    assert(records.last() == records[records.len() - 1]);
}

/// Shared memory is written by orchestrators only, and the memory of an agent
/// only by that agent and by orchestrators.
pub proof fn law_writers_are_authorized(store: Store, actor: Actor, request: Request, time: u128)
    requires
        model::write_answer(store, actor, request, time) is Ok,
    ensures
        actor.role == PrincipalRole::Orchestrator || (actor.role == PrincipalRole::Agent
            && request.scope == Scope::Agent(actor.id)),
{
}

/// A version is replaced only by a writer who states its hash.
pub proof fn law_replacing_needs_the_hash(
    store: Store,
    actor: Actor,
    request: Request,
    time: u128,
)
    requires
        model::write_answer(store, actor, request, time) is Ok,
        model::records_at(store.histories, request.path).len() > 0,
    ensures
        request.expected_hash == Some(
            model::records_at(store.histories, request.path).last().content_hash,
        ),
{
}

/// Of two writers who state the same hash for the same path, the second is
/// refused, unless the first wrote the content that was there already.
pub proof fn law_one_of_two_writers_wins(
    store: Store,
    first: Actor,
    one: Request,
    time: u128,
    second: Actor,
    other: Request,
)
    requires
        model::valid_store(store),
        model::valid_request(one),
        model::write_refusal(store.histories, first, one) is None,
        other.path == one.path,
        other.expected_hash == one.expected_hash,
        model::written_record(store, first, one, time).content_hash != one.expected_hash.unwrap_or(
            seq![],
        ),
    ensures
        model::write_refusal(
            model::store_after_write(store, first, one, time).histories,
            second,
            other,
        ) is Some,
{
    lemma_lookup_after_write(store, first, one, time, one.path);
}

/// A write that is refused changes nothing: a path without a version stays one,
/// for every kind of read.
pub proof fn law_refused_writes_change_nothing(
    store: Store,
    actor: Actor,
    request: Request,
    time: u128,
    reader: Actor,
    path: Seq<char>,
    version: u64,
)
    requires
        model::write_refusal(store.histories, actor, request) is Some,
    ensures
        model::store_after_write(store, actor, request, time) == store,
        model::records_at(store.histories, path).len() == 0 ==> {
            let after = model::store_after_write(store, actor, request, time);
            &&& model::history_answer(after, reader, path) == Err::<Seq<model::Record>, Refusal>(
                Refusal::Missing { path },
            )
            &&& model::read_version_answer(after, reader, path, version) == Err::<
                model::Record,
                Refusal,
            >(Refusal::Missing { path })
        },
{
}

/// A current version, as far as the state hash goes by it.
#[verifier::ext_equal]
pub struct Head {
    pub path: Seq<char>,
    pub content_hash: Seq<char>,
    pub version: u64,
}

/// The current versions of a store.
pub open spec fn heads_of(histories: Seq<History>) -> Seq<Head>
    decreases histories.len(),
{
    if histories.len() == 0 {
        seq![]
    } else {
        let last = histories.last();
        let earlier = heads_of(histories.drop_last());
        if last.records.len() == 0 {
            earlier
        } else {
            earlier.push(
                Head {
                    path: last.path,
                    content_hash: last.records.last().content_hash,
                    version: last.records.last().version,
                },
            )
        }
    }
}

/// The bytes of one head.
spec fn bytes_of_head(head: Head) -> Seq<u8> {
    let path = utf8::encode_utf8(head.path);
    bytes::le_bytes(path.len(), 8) + path + utf8::encode_utf8(head.content_hash)
        + bytes::le_bytes(head.version as nat, 8)
}

/// The bytes of heads, first to last.
spec fn bytes_of_heads(heads: Seq<Head>) -> Seq<u8>
    decreases heads.len(),
{
    if heads.len() == 0 {
        seq![]
    } else {
        bytes_of_head(heads[0]) + bytes_of_heads(heads.drop_first())
    }
}

proof fn lemma_bytes_of_heads_push(heads: Seq<Head>, head: Head)
    ensures
        bytes_of_heads(heads.push(head)) == bytes_of_heads(heads) + bytes_of_head(head),
    decreases heads.len(),
{
    let longer = heads.push(head);
    if heads.len() == 0 {
        assert(longer.drop_first() =~= heads);
        assert(bytes_of_heads(heads) =~= seq![]);
        assert(bytes_of_heads(longer) =~= bytes_of_heads(heads) + bytes_of_head(head));
    } else {
        lemma_bytes_of_heads_push(heads.drop_first(), head);
        assert(longer.drop_first() =~= heads.drop_first().push(head));
        assert(bytes_of_heads(longer) =~= bytes_of_heads(heads) + bytes_of_head(head));
    }
}

proof fn lemma_state_bytes_of_heads(histories: Seq<History>)
    ensures
        model::state_bytes(histories) == bytes_of_heads(heads_of(histories)),
    decreases histories.len(),
{
    if histories.len() > 0 {
        let last = histories.last();
        lemma_state_bytes_of_heads(histories.drop_last());
        if last.records.len() > 0 {
            let head = Head {
                path: last.path,
                content_hash: last.records.last().content_hash,
                version: last.records.last().version,
            };
            lemma_bytes_of_heads_push(heads_of(histories.drop_last()), head);
        } else {
            assert(model::state_bytes(histories) =~= model::state_bytes(histories.drop_last()));
        }
    }
}

/// A head whose path and hash have the lengths that a store gives them.
spec fn head_fits(head: Head) -> bool {
    &&& utf8::encode_utf8(head.path).len() <= u64::MAX
    &&& utf8::encode_utf8(head.content_hash).len() == 71
}

proof fn lemma_heads_fit(store: Store, count: int)
    requires
        model::valid_store(store),
        0 <= count <= store.histories.len(),
    ensures
        forall|i: int|
            0 <= i < heads_of(store.histories.take(count)).len() ==> head_fits(
                #[trigger] heads_of(store.histories.take(count))[i],
            ),
    decreases count,
{
    if count > 0 {
        lemma_heads_fit(store, count - 1);
        let taken = store.histories.take(count);
        let last = store.histories[count - 1];
        assert(taken.drop_last() =~= store.histories.take(count - 1));
        assert(taken.last() == last);
        assert(model::valid_history(last, store.sequence));
        if last.records.len() > 0 {
            let record = last.records[last.records.len() - 1];
            lemma_digest_text_ascii(utf8::encode_utf8(record.content));
            assert(last.records.last() == record);
        }
        let earlier = heads_of(store.histories.take(count - 1));
        assert forall|i: int| 0 <= i < heads_of(taken).len() implies head_fits(
            #[trigger] heads_of(taken)[i],
        ) by {
            if i < earlier.len() {
                assert(heads_of(taken)[i] == earlier[i]);
            }
        }
    }
}

/// The text form of a digest occupies as many bytes as characters.
proof fn lemma_digest_text_ascii(bytes: Seq<u8>)
    ensures
        utf8::encode_utf8(digest::digest_text_of(bytes)).len() == 71,
{
    let text = digest::digest_text_of(bytes);
    lemma_digest_text_length(bytes);
    reveal_strlit("sha256:");
    lemma_hex_ascii(digest::sha256_of(bytes)@);
    assert(utf8::is_ascii_chars(text));
    utf8::is_ascii_chars_encode_utf8(text);
}

proof fn lemma_hex_ascii(bytes: Seq<u8>)
    ensures
        utf8::is_ascii_chars(digest::hex_of(bytes)),
    decreases bytes.len(),
{
    if bytes.len() > 0 {
        lemma_hex_ascii(bytes.drop_last());
        reveal_with_fuel(text::hexadecimal, 3);
    }
}

/// The first head can be told from the bytes.
proof fn lemma_first_head(a: Head, b: Head, x: Seq<u8>, y: Seq<u8>)
    requires
        head_fits(a),
        head_fits(b),
        bytes_of_head(a) + x == bytes_of_head(b) + y,
    ensures
        a == b,
        x == y,
{
    let whole = bytes_of_head(a) + x;
    let p = utf8::encode_utf8(a.path);
    let q = utf8::encode_utf8(b.path);
    assert(bytes::scale(8) == 0x1_0000_0000_0000_0000) by {
        reveal_with_fuel(bytes::scale, 9);
    }
    bytes::lemma_le_bytes_value(p.len(), 8);
    bytes::lemma_le_bytes_value(q.len(), 8);
    assert(whole.take(8) =~= bytes::le_bytes(p.len(), 8));
    assert(whole.take(8) =~= bytes::le_bytes(q.len(), 8));
    let n = p.len() as int;
    assert(whole.subrange(8, 8 + n) =~= p);
    assert(whole.subrange(8, 8 + n) =~= q);
    text::lemma_bytes_determine_chars(a.path, b.path);
    assert(whole.subrange(8 + n, 79 + n) =~= utf8::encode_utf8(a.content_hash));
    assert(whole.subrange(8 + n, 79 + n) =~= utf8::encode_utf8(b.content_hash));
    text::lemma_bytes_determine_chars(a.content_hash, b.content_hash);
    bytes::lemma_le_bytes_value(a.version as nat, 8);
    bytes::lemma_le_bytes_value(b.version as nat, 8);
    assert(whole.subrange(79 + n, 87 + n) =~= bytes::le_bytes(a.version as nat, 8));
    assert(whole.subrange(79 + n, 87 + n) =~= bytes::le_bytes(b.version as nat, 8));
    assert(whole.skip(87 + n) =~= x);
    assert(whole.skip(87 + n) =~= y);
}

proof fn lemma_heads_from_bytes(a: Seq<Head>, b: Seq<Head>)
    requires
        forall|i: int| 0 <= i < a.len() ==> head_fits(#[trigger] a[i]),
        forall|i: int| 0 <= i < b.len() ==> head_fits(#[trigger] b[i]),
        bytes_of_heads(a) == bytes_of_heads(b),
    ensures
        a == b,
    decreases a.len(),
{
    if a.len() == 0 {
        if b.len() > 0 {
            assert(bytes_of_heads(b).len() >= 71);
        }
        assert(a =~= b);
    } else if b.len() == 0 {
        assert(bytes_of_heads(a).len() >= 71);
    } else {
        let x = bytes_of_heads(a.drop_first());
        let y = bytes_of_heads(b.drop_first());
        lemma_first_head(a[0], b[0], x, y);
        lemma_heads_from_bytes(a.drop_first(), b.drop_first());
        assert(a =~= seq![a[0]] + a.drop_first());
        assert(b =~= seq![b[0]] + b.drop_first());
    }
}

/// The current version of a history, as far as the state hash goes by it.
spec fn head_of(history: History) -> Head {
    Head {
        path: history.path,
        content_hash: history.records.last().content_hash,
        version: history.records.last().version,
    }
}

/// The current version at `path`, as far as the state hash goes by it.
pub open spec fn head_at(histories: Seq<History>, path: Seq<char>) -> Option<Head> {
    let records = model::records_at(histories, path);
    if records.len() == 0 {
        None
    } else {
        Some(
            Head {
                path,
                content_hash: records.last().content_hash,
                version: records.last().version,
            },
        )
    }
}

/// In a valid store every history has a head.
proof fn lemma_heads_listed(histories: Seq<History>)
    requires
        forall|i: int|
            0 <= i < histories.len() ==> (#[trigger] histories[i]).records.len() > 0,
    ensures
        heads_of(histories) == histories.map_values(|history: History| head_of(history)),
    decreases histories.len(),
{
    let heads = histories.map_values(|history: History| head_of(history));
    if histories.len() > 0 {
        let fewer = histories.drop_last();
        assert forall|i: int| 0 <= i < fewer.len() implies (
        #[trigger] fewer[i]).records.len() > 0 by {
            assert(fewer[i] == histories[i]);
        }
        lemma_heads_listed(fewer);
        assert(histories.last() == histories[histories.len() - 1]);
        assert(heads_of(histories) =~= heads);
    } else {
        assert(heads_of(histories) =~= heads);
    }
}

/// The heads of a valid store, one for each history.
proof fn lemma_store_heads(store: Store)
    requires
        model::valid_store(store),
    ensures
        heads_of(store.histories).len() == store.histories.len(),
        forall|i: int|
            0 <= i < store.histories.len() ==> {
                &&& #[trigger] heads_of(store.histories)[i] == head_of(store.histories[i])
                &&& head_at(store.histories, store.histories[i].path) == Some(
                    head_of(store.histories[i]),
                )
            },
        forall|path: Seq<char>| #[trigger]
            head_at(store.histories, path) is Some ==> model::has_history(store.histories, path),
{
    let histories = store.histories;
    assert forall|i: int| 0 <= i < histories.len() implies (
    #[trigger] histories[i]).records.len() > 0 by {
        assert(model::valid_history(histories[i], store.sequence));
    }
    lemma_heads_listed(histories);
    assert forall|i: int| 0 <= i < histories.len() implies head_at(
        histories,
        (#[trigger] histories[i]).path,
    ) == Some(head_of(histories[i])) by {
        lemma_found(histories, histories[i].path, i);
    }
}

/// A path is among those of some histories.
spec fn among(histories: Seq<History>, path: Seq<char>) -> bool {
    exists|i: int| 0 <= i < histories.len() && #[trigger] histories[i].path == path
}

/// The last of sorted histories comes behind the others, and may be left out.
proof fn lemma_last_path(histories: Seq<History>)
    requires
        model::paths_sorted(histories),
        histories.len() > 0,
    ensures
        among(histories, histories.last().path),
        model::paths_sorted(histories.drop_last()),
        forall|path: Seq<char>| #[trigger]
            among(histories, path) ==> path == histories.last().path || model::path_before(
                path,
                histories.last().path,
            ),
        forall|path: Seq<char>| #[trigger]
            among(histories.drop_last(), path) <==> among(histories, path) && path
                != histories.last().path,
{
    let fewer = histories.drop_last();
    let end = histories.len() - 1;
    let last = histories[end].path;
    assert(histories[end].path == last);
    text::lemma_lex_less_irreflexive(utf8::encode_utf8(last));
    assert forall|path: Seq<char>| #[trigger] among(histories, path) implies path == last
        || model::path_before(path, last) by {
        let i = choose|i: int| 0 <= i < histories.len() && #[trigger] histories[i].path == path;
        if i < end {
            assert(model::path_before(histories[i].path, histories[end].path));
        }
    }
    assert forall|path: Seq<char>| #[trigger] among(fewer, path) <==> among(histories, path)
        && path != last by {
        if among(fewer, path) {
            let i = choose|i: int| 0 <= i < fewer.len() && #[trigger] fewer[i].path == path;
            assert(histories[i].path == path);
            assert(model::path_before(histories[i].path, histories[end].path));
        }
        if among(histories, path) && path != last {
            let i = choose|i: int| 0 <= i < histories.len() && #[trigger] histories[i].path == path;
            assert(fewer[i].path == path);
        }
    }
    assert forall|i: int, j: int| 0 <= i < j < fewer.len() implies model::path_before(
        (#[trigger] fewer[i]).path,
        (#[trigger] fewer[j]).path,
    ) by {
        assert(fewer[i] == histories[i] && fewer[j] == histories[j]);
    }
}

/// Sorted histories at the same paths have the same paths in the same places.
proof fn lemma_same_paths(a: Seq<History>, b: Seq<History>)
    requires
        model::paths_sorted(a),
        model::paths_sorted(b),
        forall|path: Seq<char>| among(a, path) == #[trigger] among(b, path),
    ensures
        a.len() == b.len(),
        forall|i: int| 0 <= i < a.len() ==> (#[trigger] a[i]).path == b[i].path,
    decreases a.len(),
{
    if b.len() > 0 {
        lemma_last_path(b);
        assert(among(a, b.last().path));
    }
    if a.len() > 0 {
        lemma_last_path(a);
        assert(among(b, a.last().path));
        let x = utf8::encode_utf8(a.last().path);
        let y = utf8::encode_utf8(b.last().path);
        if a.last().path != b.last().path {
            text::lemma_lex_less_transitive(x, y, x);
            text::lemma_lex_less_irreflexive(x);
        }
        let c = a.drop_last();
        let d = b.drop_last();
        assert forall|path: Seq<char>| among(c, path) == #[trigger] among(d, path) by {
            assert(among(a, path) == among(b, path));
        }
        lemma_same_paths(c, d);
        assert forall|i: int| 0 <= i < a.len() implies (#[trigger] a[i]).path == b[i].path by {
            if i < c.len() {
                assert(c[i].path == d[i].path);
            } else {
                assert(a.last().path == b.last().path);
            }
        }
    }
}

/// Two stores have the same heads at all paths exactly if they list the same
/// heads.
proof fn lemma_heads_agree(a: Store, b: Store)
    requires
        model::valid_store(a),
        model::valid_store(b),
    ensures
        heads_of(a.histories) == heads_of(b.histories) <==> forall|path: Seq<char>|
            head_at(a.histories, path) == #[trigger] head_at(b.histories, path),
{
    lemma_store_heads(a);
    lemma_store_heads(b);
    let x = a.histories;
    let y = b.histories;
    if heads_of(x) == heads_of(y) {
        assert forall|path: Seq<char>| head_at(x, path) == #[trigger] head_at(y, path) by {
            if head_at(x, path) is Some {
                let i = model::slot(x, path) as int;
                assert(heads_of(x)[i] == head_of(x[i]));
                assert(heads_of(y)[i] == head_of(y[i]));
            } else if head_at(y, path) is Some {
                let i = model::slot(y, path) as int;
                assert(heads_of(x)[i] == head_of(x[i]));
                assert(heads_of(y)[i] == head_of(y[i]));
            }
        }
    }
    if forall|path: Seq<char>| head_at(x, path) == #[trigger] head_at(y, path) {
        assert forall|path: Seq<char>| among(x, path) == #[trigger] among(y, path) by {
            assert(head_at(x, path) == head_at(y, path));
            if among(x, path) {
                let i = choose|i: int| 0 <= i < x.len() && #[trigger] x[i].path == path;
                assert(heads_of(x)[i] == head_of(x[i]));
                assert(y[model::slot(y, path) as int].path == path);
            }
            if among(y, path) {
                let i = choose|i: int| 0 <= i < y.len() && #[trigger] y[i].path == path;
                assert(heads_of(y)[i] == head_of(y[i]));
                assert(x[model::slot(x, path) as int].path == path);
            }
        }
        lemma_same_paths(x, y);
        assert forall|i: int| 0 <= i < x.len() implies heads_of(x)[i] == heads_of(y)[i] by {
            assert(heads_of(x)[i] == head_of(x[i]));
            assert(heads_of(y)[i] == head_of(y[i]));
            assert(x[i].path == y[i].path);
            assert(head_at(x, x[i].path) == head_at(y, x[i].path));
        }
        assert(heads_of(x) =~= heads_of(y));
    }
}

/// What the state hash is taken of tells the current versions of two stores
/// apart, path by path, and nothing else.
pub proof fn law_state_tells_heads_apart(a: Store, b: Store)
    requires
        model::valid_store(a),
        model::valid_store(b),
    ensures
        model::state_bytes(a.histories) == model::state_bytes(b.histories) <==> forall|
            path: Seq<char>,
        |
            head_at(a.histories, path) == #[trigger] head_at(b.histories, path),
{
    lemma_heads_agree(a, b);
    lemma_state_bytes_of_heads(a.histories);
    lemma_state_bytes_of_heads(b.histories);
    if model::state_bytes(a.histories) == model::state_bytes(b.histories) {
        lemma_heads_fit(a, a.histories.len() as int);
        lemma_heads_fit(b, b.histories.len() as int);
        assert(a.histories.take(a.histories.len() as int) =~= a.histories);
        assert(b.histories.take(b.histories.len() as int) =~= b.histories);
        lemma_heads_from_bytes(heads_of(a.histories), heads_of(b.histories));
    }
}

/// The current versions at a path of two stores have the same number and the
/// same content, or there is none in either.
pub open spec fn current_versions_agree(a: Store, b: Store, path: Seq<char>) -> bool {
    let one = model::records_at(a.histories, path);
    let other = model::records_at(b.histories, path);
    if one.len() == 0 || other.len() == 0 {
        one.len() == other.len()
    } else {
        &&& one.last().version == other.last().version
        &&& one.last().content == other.last().content
    }
}

/// Two different byte sequences have the same digest.
pub open spec fn digests_collide() -> bool {
    exists|x: Seq<u8>, y: Seq<u8>|
        x != y && #[trigger] digest::digest_text_of(x) == #[trigger] digest::digest_text_of(y)
}

/// The content hash of a current version is that of its content.
proof fn lemma_current_hash(store: Store, path: Seq<char>)
    requires
        model::valid_store(store),
        model::records_at(store.histories, path).len() > 0,
    ensures
        ({
            let head = model::records_at(store.histories, path).last();
            head.content_hash == digest::digest_text_of(utf8::encode_utf8(head.content))
        }),
{
    lemma_records_valid(store, path);
    let records = model::records_at(store.histories, path);
    assert(records.last() == records[records.len() - 1]);
}

/// The state hash goes by the current versions alone, whoever wrote them, when
/// and in which order: stores whose current versions agree at every path have
/// the same state hash, and others have different ones, unless digests collide.
pub proof fn law_state_hash_goes_by_current_versions(a: Store, b: Store)
    requires
        model::valid_store(a),
        model::valid_store(b),
    ensures
        (forall|path: Seq<char>| #[trigger] current_versions_agree(a, b, path))
            ==> model::state_hash_of(a) == model::state_hash_of(b),
        (exists|path: Seq<char>| !#[trigger] current_versions_agree(a, b, path))
            ==> model::state_hash_of(a) != model::state_hash_of(b) || digests_collide(),
{
    law_state_tells_heads_apart(a, b);
    let x = a.histories;
    let y = b.histories;
    if forall|path: Seq<char>| #[trigger] current_versions_agree(a, b, path) {
        assert forall|path: Seq<char>| head_at(x, path) == #[trigger] head_at(y, path) by {
            assert(current_versions_agree(a, b, path));
            if model::records_at(x, path).len() > 0 {
                lemma_current_hash(a, path);
                lemma_current_hash(b, path);
            }
        }
    }
    if exists|path: Seq<char>| !#[trigger] current_versions_agree(a, b, path) {
        let path = choose|path: Seq<char>| !#[trigger] current_versions_agree(a, b, path);
        if head_at(x, path) == head_at(y, path) {
            lemma_current_hash(a, path);
            lemma_current_hash(b, path);
            let one = model::records_at(x, path).last().content;
            let other = model::records_at(y, path).last().content;
            text::lemma_bytes_determine_chars(one, other);
            assert(digest::digest_text_of(utf8::encode_utf8(one)) == digest::digest_text_of(
                utf8::encode_utf8(other),
            ));
        } else {
            assert(model::state_bytes(x) != model::state_bytes(y));
            if model::state_hash_of(a) == model::state_hash_of(b) {
                assert(digest::digest_text_of(model::state_bytes(x)) == digest::digest_text_of(
                    model::state_bytes(y),
                ));
            }
        }
    }
}

/// A write that goes through changes what the state hash is taken of, so that a
/// dreaming pass begun before it is not committed over it.
pub proof fn law_writes_change_the_state(store: Store, actor: Actor, request: Request, time: u128)
    requires
        model::valid_store(store),
        model::valid_request(request),
        model::write_refusal(store.histories, actor, request) is None,
        model::records_at(store.histories, request.path).len() < u64::MAX,
    ensures
        model::state_bytes(store.histories) != model::state_bytes(
            model::store_after_write(store, actor, request, time).histories,
        ),
{
    let path = request.path;
    let after = model::store_after_write(store, actor, request, time);
    law_writes_keep_stores_valid(store, actor, request, time);
    law_state_tells_heads_apart(store, after);
    lemma_lookup_after_write(store, actor, request, time, path);
    let records = model::records_at(store.histories, path);
    if records.len() > 0 {
        lemma_records_valid(store, path);
        assert(records.last() == records[records.len() - 1]);
    }
    assert(head_at(store.histories, path) != head_at(after.histories, path));
}

/// Agents write their own memory: a memory that is not there yet, and one whose
/// current version they state the hash of.
pub proof fn law_agents_write_their_own_memory(
    store: Store,
    actor: Actor,
    request: Request,
    time: u128,
)
    requires
        actor.role == PrincipalRole::Agent,
        request.scope == Scope::Agent(actor.id),
        ({
            let records = model::records_at(store.histories, request.path);
            if records.len() == 0 {
                request.expected_hash is None
            } else {
                &&& records.last().scope == request.scope
                &&& request.expected_hash == Some(records.last().content_hash)
            }
        }),
    ensures
        model::write_answer(store, actor, request, time) == Ok::<model::Record, Refusal>(
            model::written_record(store, actor, request, time),
        ),
{
}

} // verus!
