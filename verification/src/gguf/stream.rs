//! Whole validations of a GGUF file: what a [`HeaderReader`] comes to if it is
//! driven over a file.

use vstd::prelude::*;

use crate::gguf::error::{Failure, ReadError};
use crate::gguf::grammar;
use crate::gguf::grammar::{Document, Rules};
use crate::gguf::header;
use crate::gguf::header::{Action, Event, GgufHeader, HeaderReader, Phase};
use crate::gguf::laws;
use crate::gguf::limits::{HeaderLimits, Limits, DEFAULT_MAX_HEADER_BYTES};

verus! {

/// A validation under way: its state, and where the source that it reads from
/// stands.
pub struct Progress {
    pub reader: HeaderReader,
    pub cursor: nat,
}

/// A source that holds `file` and stands at `cursor` answers `action` with
/// `event`, and stands at `next` then.
pub open spec fn performs(
    file: Seq<u8>,
    action: Action,
    cursor: nat,
    event: Event<'_>,
    next: nat,
) -> bool {
    match action {
        Action::FindEnd => {
            &&& event matches Event::End(length) && length == file.len()
            &&& next == file.len()
        },
        Action::SeekTo(position) => event is Moved && next == position,
        Action::Read(length) => {
            &&& cursor + length <= file.len()
            &&& event matches Event::Bytes(bytes) && bytes@ == file.subrange(
                cursor as int,
                cursor + length,
            )
            &&& next == cursor + length
        },
        Action::Done => false,
    }
}

/// The source performs the action under way in `from`, and the validation goes
/// on as `to`.
pub open spec fn advances(
    file: Seq<u8>,
    from: Progress,
    event: Event<'_>,
    to: Progress,
) -> bool {
    &&& from.reader.well_formed()
    &&& from.reader.ready()
    &&& performs(file, from.reader.spec_action(), from.cursor, event, to.cursor)
    &&& from.reader.resumed(event, &to.reader, Ok(()))
}

/// A validation of `file` from its start, wherever the source stands then:
/// `events` led from each of the states to the next.
pub open spec fn runs(
    limits: HeaderLimits,
    file: Seq<u8>,
    states: Seq<Progress>,
    events: Seq<Event<'_>>,
) -> bool {
    &&& states.len() == events.len() + 1
    &&& begins(limits, states[0].reader)
    &&& forall|i: int|
        0 <= i < events.len() ==> advances(
            file,
            states[i],
            #[trigger] events[i],
            states[i + 1],
        )
}

/// The state that [`HeaderReader::new`] yields.
pub open spec fn begins(limits: HeaderLimits, reader: HeaderReader) -> bool {
    &&& reader.well_formed()
    &&& reader.ready()
    &&& reader.spec_limits() == limits
    &&& reader.spec_phase() is FindLength
}

/// What the rules say of a file that is validated piece by piece.
pub open spec fn meaning(limits: HeaderLimits, file: Seq<u8>) -> Result<Document, Failure> {
    grammar::document(header::streaming_rules(limits), file)
}

/// `error` says why a file has no contents.
pub open spec fn reports(error: ReadError, contents: Result<Document, Failure>) -> bool {
    error matches ReadError::Parse(error) && contents == Err::<Document, Failure>(error@)
}

/// What holds of every state of a validation of `file`.
pub open spec fn on_course(limits: HeaderLimits, file: Seq<u8>, state: Progress) -> bool {
    let reader = state.reader;
    &&& reader.well_formed()
    &&& match reader.spec_phase() {
        Phase::FindLength => reader.ready() && reader.spec_limits() == limits,
        Phase::Rewind => {
            &&& reader.ready()
            &&& reader.spec_limits() == limits
            &&& reader.spec_file_size() == file.len()
        },
        Phase::Parse => {
            &&& reader.spec_limits() == limits
            &&& reader.spec_file_size() == file.len()
            &&& reader.spec_position() <= file.len()
            &&& reader.spec_position() == state.cursor
            &&& reader.verdict(file) == meaning(limits, file)
        },
        Phase::Recheck | Phase::Position => {
            &&& reader.ready()
            &&& reader.spec_file_size() == file.len()
            &&& meaning(limits, file) == Ok::<Document, Failure>(reader.found())
        },
        Phase::Done => {
            &&& reader.spec_file_size() == file.len()
            &&& meaning(limits, file) == Ok::<Document, Failure>(reader.found())
            &&& state.cursor == reader.found().data_offset
        },
    }
}

/// The most actions that are still to be performed on a file of `size` bytes.
pub open spec fn actions_left(size: nat, reader: HeaderReader) -> int {
    match reader.spec_phase() {
        Phase::FindLength => 2 * size as int + 6,
        Phase::Rewind => 2 * size as int + 5,
        Phase::Parse => 2 * (size - reader.spec_position()) + if reader.may_be_empty() {
            4int
        } else {
            3int
        },
        Phase::Recheck => 2,
        Phase::Position => 1,
        Phase::Done => 0,
    }
}

/// An action brings a validation closer to its end.
proof fn lemma_advance(
    limits: HeaderLimits,
    file: Seq<u8>,
    from: Progress,
    event: Event<'_>,
    to: Progress,
)
    requires
        on_course(limits, file, from),
        advances(file, from, event, to),
    ensures
        on_course(limits, file, to),
        0 <= actions_left(file.len(), to.reader) < actions_left(file.len(), from.reader),
{
    if from.reader.spec_phase() is Parse {
        from.reader.law_actions_stay_within_bounds();
        if let Event::Bytes(bytes) = event {
            assert(from.reader.reads(file, bytes@));
        }
        assert(from.reader.verdict(file) == to.reader.verdict(file));
    } else if from.reader.spec_phase() is Position {
        laws::law_layout(header::streaming_rules(limits), file);
    }
}

/// An event with which a validation does not go on tells what is wrong with the
/// file.
proof fn lemma_refusal(
    limits: HeaderLimits,
    file: Seq<u8>,
    from: Progress,
    event: Event<'_>,
    next: nat,
    reader: HeaderReader,
    error: ReadError,
)
    requires
        on_course(limits, file, from),
        from.reader.ready(),
        performs(file, from.reader.spec_action(), from.cursor, event, next),
        from.reader.resumed(event, &reader, Err(error)),
    ensures
        reports(error, meaning(limits, file)),
{
    if from.reader.spec_phase() is Parse {
        from.reader.law_actions_stay_within_bounds();
        if let Event::Bytes(bytes) = event {
            assert(from.reader.reads(file, bytes@));
        }
        assert(from.reader.verdict(file) == meaning(limits, file));
    }
}

/// Every state of a validation is on course, and there are no more of them than
/// a number that the length of the file bounds: a validation ends.
pub proof fn law_runs_stay_on_course_and_end(
    limits: HeaderLimits,
    file: Seq<u8>,
    states: Seq<Progress>,
    events: Seq<Event<'_>>,
)
    requires
        runs(limits, file, states, events),
    ensures
        on_course(limits, file, states.last()),
        0 <= actions_left(file.len(), states.last().reader),
        events.len() + actions_left(file.len(), states.last().reader) <= 2 * file.len() + 6,
    decreases events.len(),
{
    if events.len() > 0 {
        let before = events.drop_last();
        assert forall|i: int| 0 <= i < before.len() implies advances(
            file,
            states.drop_last()[i],
            #[trigger] before[i],
            states.drop_last()[i + 1],
        ) by {
            assert(events[i] == before[i]);
        }
        law_runs_stay_on_course_and_end(limits, file, states.drop_last(), before);
        let last = events.len() - 1;
        assert(advances(file, states[last], events[last], states[last + 1]));
        lemma_advance(limits, file, states[last], events[last], states[last + 1]);
    }
}

/// A validation asks its source for nothing that the file does not hold, nor for
/// a byte beyond the header limit, and reads where the source stands.
pub proof fn law_sources_can_perform_each_action(
    limits: HeaderLimits,
    file: Seq<u8>,
    states: Seq<Progress>,
    events: Seq<Event<'_>>,
)
    requires
        runs(limits, file, states, events),
        states.last().reader.ready(),
    ensures
        match states.last().reader.spec_action() {
            Action::Read(length) => {
                &&& states.last().cursor == states.last().reader.spec_position()
                &&& states.last().cursor + length <= file.len()
                &&& states.last().cursor + length <= limits.max_header_bytes
            },
            Action::SeekTo(position) => position <= file.len(),
            _ => true,
        },
{
    law_runs_stay_on_course_and_end(limits, file, states, events);
    let last = states.last().reader;
    if last.spec_phase() is Parse {
        last.law_actions_stay_within_bounds();
    } else if last.spec_phase() is Position {
        laws::law_layout(header::streaming_rules(limits), file);
    }
}

/// A validation that comes to its end has found what the file holds, and leaves
/// the source at the tensor data. Where the source stood at the start does not
/// matter.
pub proof fn law_finished_runs_stand_at_the_tensor_data(
    limits: HeaderLimits,
    file: Seq<u8>,
    states: Seq<Progress>,
    events: Seq<Event<'_>>,
)
    requires
        runs(limits, file, states, events),
        states.last().reader.spec_phase() is Done,
    ensures
        ({
            let last = states.last().reader;
            let header = header::header_of(last.found(), last.spec_file_size() as nat);
            &&& meaning(limits, file) matches Ok(document) && header == header::header_of(
                document,
                file.len(),
            )
            &&& states.last().cursor == header.data_offset
            &&& header.header_size <= header.data_offset
        }),
{
    law_runs_stay_on_course_and_end(limits, file, states, events);
    laws::law_layout(header::streaming_rules(limits), file);
}

/// A validation that comes to its end has read no byte at or past the end of the
/// header.
pub proof fn law_finished_runs_read_the_header_alone(
    limits: HeaderLimits,
    file: Seq<u8>,
    states: Seq<Progress>,
    events: Seq<Event<'_>>,
    at: int,
)
    requires
        runs(limits, file, states, events),
        states.last().reader.spec_phase() is Done,
        0 <= at < events.len(),
        states[at].reader.spec_action() is Read,
    ensures
        meaning(limits, file) matches Ok(document) && states[at].cursor
            + states[at].reader.spec_action()->Read_0 <= document.header_size,
{
    lemma_states_on_course(limits, file, states, events, at);
    lemma_fields_lie_in_the_header(limits, file, states, events, at);
}

/// Each of the states of a validation is on course.
proof fn lemma_states_on_course(
    limits: HeaderLimits,
    file: Seq<u8>,
    states: Seq<Progress>,
    events: Seq<Event<'_>>,
    at: int,
)
    requires
        runs(limits, file, states, events),
        0 <= at < states.len(),
    ensures
        on_course(limits, file, states[at]),
{
    let before = events.take(at);
    let part = states.take(at + 1);
    assert forall|i: int| 0 <= i < before.len() implies advances(
        file,
        part[i],
        #[trigger] before[i],
        part[i + 1],
    ) by {
        assert(events[i] == before[i]);
    }
    law_runs_stay_on_course_and_end(limits, file, part, before);
}

proof fn lemma_fields_lie_in_the_header(
    limits: HeaderLimits,
    file: Seq<u8>,
    states: Seq<Progress>,
    events: Seq<Event<'_>>,
    at: int,
)
    requires
        runs(limits, file, states, events),
        states.last().reader.spec_phase() is Done,
        0 <= at < events.len(),
        states[at].reader.spec_phase() is Parse,
    ensures
        meaning(limits, file) matches Ok(document) && states[at].reader.field_end()
            <= document.header_size,
    decreases events.len() - at,
{
    assert(advances(file, states[at], events[at], states[at + 1]));
    states[at].reader.law_actions_stay_within_bounds();
    lemma_states_on_course(limits, file, states, events, at + 1);
    if states[at + 1].reader.spec_phase() is Parse {
        lemma_fields_lie_in_the_header(limits, file, states, events, at + 1);
        assert(advances(file, states[at + 1], events[at + 1], states[at + 2]));
        states[at + 1].reader.law_actions_stay_within_bounds();
    }
}

/// A validation that fails, before an action or after it, reports what is wrong
/// with the file.
pub proof fn law_failed_runs_report_the_fault(
    limits: HeaderLimits,
    file: Seq<u8>,
    states: Seq<Progress>,
    events: Seq<Event<'_>>,
    error: ReadError,
)
    requires
        runs(limits, file, states, events),
        fails(file, states.last(), error),
    ensures
        reports(error, meaning(limits, file)),
{
    law_runs_stay_on_course_and_end(limits, file, states, events);
    let last = states.last();
    if last.reader.barred(error) {
        assert(last.reader.verdict(file) == meaning(limits, file));
    } else {
        let (event, next, reader) = choose|event: Event<'_>, next: nat, reader: HeaderReader|
            {
                &&& #[trigger] performs(
                    file,
                    last.reader.spec_action(),
                    last.cursor,
                    event,
                    next,
                )
                &&& #[trigger] last.reader.resumed(event, &reader, Err(error))
            };
        lemma_refusal(limits, file, last, event, next, reader, error);
    }
}

/// The next action of a validation cannot be performed, or is performed and
/// refused, with `error`.
pub open spec fn fails(file: Seq<u8>, last: Progress, error: ReadError) -> bool {
    ||| last.reader.barred(error)
    ||| last.reader.ready() && exists|event: Event<'_>, next: nat, reader: HeaderReader|
        {
            &&& #[trigger] performs(file, last.reader.spec_action(), last.cursor, event, next)
            &&& #[trigger] last.reader.resumed(event, &reader, Err(error))
        }
}

/// Two validations of the same file do not come to different ends.
pub proof fn law_runs_over_the_same_file_agree(
    limits: HeaderLimits,
    file: Seq<u8>,
    states: Seq<Progress>,
    events: Seq<Event<'_>>,
    others: Seq<Progress>,
    replies: Seq<Event<'_>>,
)
    requires
        runs(limits, file, states, events),
        runs(limits, file, others, replies),
        states.last().reader.spec_phase() is Done,
    ensures
        others.last().reader.spec_phase() is Done ==> {
            let a = states.last();
            let b = others.last();
            &&& a.cursor == b.cursor
            &&& header::header_of(a.reader.found(), a.reader.spec_file_size() as nat)
                == header::header_of(b.reader.found(), b.reader.spec_file_size() as nat)
        },
        forall|error: ReadError| !(#[trigger] fails(file, others.last(), error)),
{
    law_runs_stay_on_course_and_end(limits, file, states, events);
    law_runs_stay_on_course_and_end(limits, file, others, replies);
    assert forall|error: ReadError| !(#[trigger] fails(file, others.last(), error)) by {
        if fails(file, others.last(), error) {
            law_failed_runs_report_the_fault(limits, file, others, replies, error);
        }
    }
}

/// A validation without a limit on the header says of a file what the parser of
/// whole files says.
pub proof fn law_unlimited_runs_say_what_the_parser_says(
    limits: HeaderLimits,
    file: Seq<u8>,
    states: Seq<Progress>,
    events: Seq<Event<'_>>,
)
    requires
        runs(limits, file, states, events),
        limits.max_header_bytes == u64::MAX,
        file.len() + laws::longest_request(limits.format) <= usize::MAX,
    ensures
        ({
            let whole = grammar::document(
                Rules { limits: limits.format, header_limit: None },
                file,
            );
            let last = states.last().reader;
            &&& last.spec_phase() is Done ==> {
                &&& whole is Ok
                &&& header::header_of(last.found(), last.spec_file_size() as nat)
                    == header::header_of(whole->Ok_0, file.len())
            }
            &&& forall|error: ReadError| #[trigger]
                fails(file, states.last(), error) ==> reports(error, whole)
        }),
{
    let whole = grammar::document(Rules { limits: limits.format, header_limit: None }, file);
    law_runs_stay_on_course_and_end(limits, file, states, events);
    laws::law_unlimited_reader_says_the_same(limits.format, file);
    assert forall|error: ReadError| #[trigger] fails(file, states.last(), error) implies reports(
        error,
        whole,
    ) by {
        law_failed_runs_report_the_fault(limits, file, states, events, error);
    }
}

/// The pieces stand in `file` one behind the other, from `start` on.
pub open spec fn pieces_of(file: Seq<u8>, start: nat, pieces: Seq<Seq<u8>>) -> bool
    decreases pieces.len(),
{
    if pieces.len() == 0 {
        start <= file.len()
    } else {
        let end = start + pieces[0].len();
        &&& end <= file.len()
        &&& file.subrange(start as int, end as int) == pieces[0]
        &&& pieces_of(file, end, pieces.drop_first())
    }
}

proof fn lemma_pieces(file: Seq<u8>, start: nat, pieces: Seq<Seq<u8>>)
    requires
        pieces_of(file, start, pieces),
    ensures
        start + pieces.flatten().len() <= file.len(),
        file.subrange(start as int, (start + pieces.flatten().len()) as int) == pieces.flatten(),
    decreases pieces.len(),
{
    if pieces.len() == 0 {
        assert(pieces.flatten() =~= seq![]);
    } else {
        let end = start + pieces[0].len();
        let rest = pieces.drop_first();
        lemma_pieces(file, end, rest);
        assert(pieces.flatten() == pieces[0] + rest.flatten());
        assert(file.subrange(start as int, (end + rest.flatten().len()) as int) =~= pieces[0]
            + rest.flatten());
    }
}

/// Short reads change nothing: bytes that a source hands over in pieces answer a
/// read as bytes that it hands over at once.
pub proof fn law_short_reads_change_nothing(
    file: Seq<u8>,
    cursor: nat,
    pieces: Seq<Seq<u8>>,
    bytes: &[u8],
)
    requires
        pieces_of(file, cursor, pieces),
        bytes@ == pieces.flatten(),
        bytes@.len() <= usize::MAX,
    ensures
        performs(
            file,
            Action::Read(bytes@.len() as usize),
            cursor,
            Event::Bytes(bytes),
            cursor + bytes@.len(),
        ),
{
    lemma_pieces(file, cursor, pieces);
}

/// A seekable source over bytes in memory.
#[derive(Debug, Clone, Copy)]
pub struct SliceReader<'a> {
    pub bytes: &'a [u8],
    pub position: u64,
}

impl<'a> SliceReader<'a> {
    /// Answers an action that a validation asks for.
    fn perform(&mut self, action: Action) -> (event: Event<'a>)
        requires
            !(action is Done),
            action matches Action::Read(length) ==> old(self).position + length
                <= old(self).bytes@.len(),
        ensures
            final(self).bytes == old(self).bytes,
            performs(
                old(self).bytes@,
                action,
                old(self).position as nat,
                event,
                final(self).position as nat,
            ),
    {
        assert(self.bytes.len() == self.bytes@.len());
        match action {
            Action::FindEnd | Action::Done => {
                self.position = self.bytes.len() as u64;
                Event::End(self.position)
            },
            Action::SeekTo(position) => {
                self.position = position;
                Event::Moved
            },
            Action::Read(length) => {
                let start: usize = self.position as usize;
                let source: &'a [u8] = self.bytes;
                self.position = self.position + length as u64;
                Event::Bytes(&source[start..start + length])
            },
        }
    }
}

impl GgufHeader {
    /// Validates a complete GGUF in memory with default format and header
    /// limits, wherever the reader stands.
    pub fn from_reader(reader: &mut SliceReader<'_>) -> (result: Result<Self, ReadError>)
        ensures
            final(reader).bytes == old(reader).bytes,
            validated(
                (HeaderLimits {
                    format: Limits {
                        max_string_bytes: 1_073_741_824,
                        max_array_elements: 16_777_216,
                        max_metadata_entries: 1_048_576,
                        max_tensors: 1_048_576,
                    },
                    max_header_bytes: DEFAULT_MAX_HEADER_BYTES,
                }),
                old(reader).bytes@,
                final(reader).position as nat,
                result,
            ),
    {
        Self::from_reader_with_limits(reader, HeaderLimits::default())
    }

    /// Validates a complete GGUF in memory with limits of the caller's choice,
    /// wherever the reader stands, and leaves the reader at the tensor data.
    pub fn from_reader_with_limits(
        reader: &mut SliceReader<'_>,
        limits: HeaderLimits,
    ) -> (result: Result<Self, ReadError>)
        ensures
            final(reader).bytes == old(reader).bytes,
            validated(limits, old(reader).bytes@, final(reader).position as nat, result),
    {
        let ghost file = reader.bytes@;
        let mut validation = HeaderReader::new(limits);
        loop
            invariant
                reader.bytes == old(reader).bytes,
                file == reader.bytes@,
                on_course(
                    limits,
                    file,
                    (Progress { reader: validation, cursor: reader.position as nat }),
                ),
                0 <= actions_left(file.len(), validation),
            decreases actions_left(file.len(), validation),
        {
            let ghost from = Progress { reader: validation, cursor: reader.position as nat };
            let action = match validation.action() {
                Ok(action) => action,
                Err(error) => {
                    assert(validation.verdict(file) == meaning(limits, file));
                    return Err(error);
                },
            };
            proof {
                if validation.spec_phase() is Parse {
                    validation.law_actions_stay_within_bounds();
                }
            }
            if let Action::Done = action {
                return Ok(validation.header());
            }
            let event = reader.perform(action);
            let ghost cursor = reader.position as nat;
            match validation.resume(event) {
                Ok(()) => {
                    proof {
                        let to = Progress { reader: validation, cursor };
                        lemma_advance(limits, file, from, event, to);
                    }
                },
                Err(error) => {
                    proof {
                        lemma_refusal(limits, file, from, event, cursor, validation, error);
                    }
                    return Err(error);
                },
            }
        }
    }
}

/// What a validation of `file` comes to, and where it leaves its source.
pub open spec fn validated(
    limits: HeaderLimits,
    file: Seq<u8>,
    cursor: nat,
    result: Result<GgufHeader, ReadError>,
) -> bool {
    match meaning(limits, file) {
        Ok(document) => {
            &&& result matches Ok(header) && header@ == header::header_of(document, file.len())
            &&& cursor == document.data_offset
        },
        Err(_) => result matches Err(error) && reports(error, meaning(limits, file)),
    }
}

} // verus!
