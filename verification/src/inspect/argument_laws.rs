//! What command lines ask, by the parts that they are made of.

use vstd::prelude::*;

use crate::inspect::arguments;
use crate::inspect::arguments::{Argument, Command, Options, Progress};
use crate::text_laws;

verus! {

/// A part of a command line.
#[derive(PartialEq, Eq, Structural)]
pub enum Part {
    /// `--full`.
    Full,
    /// `--max-file-bytes` and a number behind it.
    Limit,
    /// The path of a file.
    File,
}

/// How many arguments a part is made of.
pub open spec fn width(part: Part) -> int {
    if part == Part::Limit {
        2
    } else {
        1
    }
}

/// An argument is a text.
pub open spec fn says(argument: Argument, text: Seq<char>) -> bool {
    argument.text is Some && argument.text->0@ == text
}

/// The arguments from number `at` on are made of the parts from number `from` on.
pub open spec fn made_of(arguments: Seq<Argument>, at: int, parts: Seq<Part>, from: int) -> bool
    decreases parts.len() - from,
{
    if from >= parts.len() {
        at == arguments.len()
    } else {
        &&& 0 <= at
        &&& at + width(parts[from]) <= arguments.len()
        &&& match parts[from] {
            Part::Full => says(arguments[at], "--full"@),
            Part::Limit => says(arguments[at], "--max-file-bytes"@),
            Part::File => arguments[at].text matches Some(text) ==> text@.len() == 0 || text@[0]
                != '-',
        }
        &&& made_of(arguments, at + width(parts[from]), parts, from + 1)
    }
}

/// How often a part occurs from number `from` on.
pub open spec fn occurrences(parts: Seq<Part>, part: Part, from: int) -> nat
    decreases parts.len() - from,
{
    if from >= parts.len() {
        0
    } else {
        (if parts[from] == part {
            1nat
        } else {
            0nat
        }) + occurrences(parts, part, from + 1)
    }
}

/// The number of the argument with which part number `part` starts.
pub open spec fn place(parts: Seq<Part>, part: int) -> int
    decreases part,
{
    if part <= 0 {
        0
    } else {
        place(parts, part - 1) + width(parts[part - 1])
    }
}

/// The limit that an argument states: digits that stand for a number above zero
/// that fits into 64 bits.
pub open spec fn states(argument: Argument, limit: u64) -> bool {
    &&& limit > 0
    &&& argument.text is Some
    &&& text_laws::all_digits(argument.text->0@)
    &&& argument.text->0@.len() > 0
    &&& text_laws::value_of_digits(argument.text->0@) == limit
}

/// What has been read once the parts from number `from` on have been read too.
pub open spec fn read_on(
    arguments: Seq<Argument>,
    parts: Seq<Part>,
    from: int,
    before: Progress,
    after: Progress,
) -> bool {
    &&& after.full_output == (before.full_output || occurrences(parts, Part::Full, from) > 0)
    &&& !after.positional_only
    &&& if occurrences(parts, Part::File, from) > 0 {
        exists|k: int|
            from <= k < parts.len() && #[trigger] parts[k] == Part::File && after.path == Some(
                place(parts, k),
            )
    } else {
        after.path == before.path
    }
    &&& if occurrences(parts, Part::Limit, from) > 0 {
        exists|k: int, limit: u64|
            from <= k < parts.len() && #[trigger] parts[k] == Part::Limit && #[trigger] states(
                arguments[place(parts, k) + 1],
                limit,
            ) && after.limit == Some(limit)
    } else {
        after.limit == before.limit
    }
}

/// No part occurs more often than it may.
pub open spec fn once_each(parts: Seq<Part>, from: int, before: Progress) -> bool {
    &&& occurrences(parts, Part::Full, from) + (if before.full_output {
        1nat
    } else {
        0nat
    }) <= 1
    &&& occurrences(parts, Part::Limit, from) + (if before.limit is Some {
        1nat
    } else {
        0nat
    }) <= 1
    &&& occurrences(parts, Part::File, from) + (if before.path is Some {
        1nat
    } else {
        0nat
    }) <= 1
}

/// Every limit is stated by a number.
pub open spec fn limits_stated(arguments: Seq<Argument>, parts: Seq<Part>) -> bool {
    forall|k: int|
        0 <= k < parts.len() && #[trigger] parts[k] == Part::Limit ==> exists|limit: u64|
            #[trigger]
            states(arguments[place(parts, k) + 1], limit)
}

proof fn lemma_texts()
    ensures
        "--"@ == seq!['-', '-'],
        "--full"@ == seq!['-', '-', 'f', 'u', 'l', 'l'],
        "--max-file-bytes"@.len() == 16,
        "--max-file-bytes"@[0] == '-',
        "-h"@.len() == 2,
        "-h"@[0] == '-',
        "--help"@.len() == 6,
        "--help"@[0] == '-',
        "--help"@[2] == 'h',
        "-V"@.len() == 2,
        "-V"@[0] == '-',
        "--version"@.len() == 9,
        "--version"@[0] == '-',
{
    reveal_strlit("--");
    reveal_strlit("--full");
    reveal_strlit("--max-file-bytes");
    reveal_strlit("-h");
    reveal_strlit("--help");
    reveal_strlit("-V");
    reveal_strlit("--version");
    assert("--"@ =~= seq!['-', '-']);
    assert("--full"@ =~= seq!['-', '-', 'f', 'u', 'l', 'l']);
}

proof fn lemma_limit(argument: Argument, limit: u64)
    requires
        states(argument, limit),
    ensures
        arguments::limit_of(arguments::argument_text(argument)) == Ok::<u64, Seq<char>>(limit),
{
    let digits = argument.text->0@;
    text_laws::lemma_digits(digits);
    assert(text_laws::is_digit(digits[0]));
}

#[verifier::rlimit(40)]
proof fn lemma_read(
    program: Seq<char>,
    arguments: Seq<Argument>,
    parts: Seq<Part>,
    from: int,
    before: Progress,
)
    requires
        0 <= from <= parts.len(),
        made_of(arguments, place(parts, from), parts, from),
        limits_stated(arguments, parts),
        !before.positional_only,
    ensures
        ({
            let result = arguments::progress_from(
                program,
                arguments,
                place(parts, from),
                before,
            );
            &&& result is Ok <==> once_each(parts, from, before)
            &&& result is Ok ==> read_on(arguments, parts, from, before, result->Ok_0)
        }),
    decreases parts.len() - from,
{
    let at = place(parts, from);
    if from < parts.len() {
        lemma_texts();
        lemma_place(parts, from);
        let argument = arguments[at];
        let words = arguments::argument_text(argument);
        let result = arguments::progress_from(program, arguments, at, before);
        match parts[from] {
            Part::Full => {
                assert(words == Some("--full"@));
                assert("--full"@.len() != "--"@.len());
                if before.full_output {
                    assert(result is Err);
                } else {
                    lemma_read(
                        program,
                        arguments,
                        parts,
                        from + 1,
                        Progress { full_output: true, ..before },
                    );
                }
            },
            Part::Limit => {
                assert(words == Some("--max-file-bytes"@));
                assert("--max-file-bytes"@.len() != "--"@.len());
                assert("--max-file-bytes"@.len() != "--full"@.len());
                if before.limit is Some {
                    assert(result is Err);
                } else {
                    let limit = choose|limit: u64| #[trigger]
                        states(arguments[place(parts, from) + 1], limit);
                    lemma_limit(arguments[at + 1], limit);
                    lemma_read(
                        program,
                        arguments,
                        parts,
                        from + 1,
                        Progress { limit: Some(limit), ..before },
                    );
                    assert(parts[from] == Part::Limit && states(
                        arguments[place(parts, from) + 1],
                        limit,
                    ));
                }
            },
            Part::File => {
                assert(!arguments::is_flag(words));
                assert(words != Some("--"@));
                assert(words != Some("--full"@));
                assert(words != Some("--max-file-bytes"@));
                if before.path is Some {
                    assert(result is Err);
                } else {
                    lemma_read(
                        program,
                        arguments,
                        parts,
                        from + 1,
                        Progress { path: Some(at), ..before },
                    );
                    assert(parts[from] == Part::File);
                }
            },
        }
    } else {
        assert(at == arguments.len());
    }
}

proof fn lemma_place(parts: Seq<Part>, part: int)
    requires
        0 <= part < parts.len(),
    ensures
        place(parts, part + 1) == place(parts, part) + width(parts[part]),
        place(parts, part) >= 0,
    decreases part,
{
    if part > 0 {
        lemma_place(parts, part - 1);
    }
}

/// A command line that is made of options and of paths, in any order, asks to
/// inspect the file, if there is one path and no option is given twice. The limit is
/// the one that is stated, or two to the fortieth bytes, and all is shown if that
/// is asked for.
pub proof fn law_options_stand_in_any_order(
    program: &str,
    line: &[Argument],
    parts: Seq<Part>,
    result: Result<Command, String>,
)
    requires
        call_ensures(arguments::parse_args, (program, line), result),
        made_of(line@, 0, parts, 0),
        limits_stated(line@, parts),
    ensures
        result is Ok <==> {
            &&& occurrences(parts, Part::File, 0) == 1
            &&& occurrences(parts, Part::Full, 0) <= 1
            &&& occurrences(parts, Part::Limit, 0) <= 1
        },
        result matches Ok(command) ==> {
            &&& command is Inspect
            &&& asks(line@, parts, command->Inspect_0)
        },
{
    lemma_texts();
    if line@.len() == 1 && parts.len() > 0 {
        reveal_with_fuel(made_of, 2);
        assert(arguments::argument_text(line@[0]) != Some("-h"@));
        assert(arguments::argument_text(line@[0]) != Some("--help"@));
        assert(arguments::argument_text(line@[0]) != Some("-V"@));
        assert(arguments::argument_text(line@[0]) != Some("--version"@));
    }
    lemma_read(program@, line@, parts, 0, arguments::no_progress());
}

/// Options are those that the parts of a command line ask for.
pub open spec fn asks(line: Seq<Argument>, parts: Seq<Part>, options: Options) -> bool {
    &&& options.full_output == (occurrences(parts, Part::Full, 0) > 0)
    &&& exists|k: int|
        0 <= k < parts.len() && #[trigger] parts[k] == Part::File && options.path
            == line[place(parts, k)].path
    &&& if occurrences(parts, Part::Limit, 0) > 0 {
        exists|k: int|
            0 <= k < parts.len() && #[trigger] parts[k] == Part::Limit && states(
                line[place(parts, k) + 1],
                options.max_file_bytes,
            )
    } else {
        options.max_file_bytes == 1024 * 1024 * 1024 * 1024
    }
}

/// A command line that is a single question is answered: with how the program is
/// used, or with its version. Nothing else is, and no other option stands alone.
pub proof fn law_questions_stand_alone(
    program: &str,
    line: &[Argument],
    result: Result<Command, String>,
)
    requires
        call_ensures(arguments::parse_args, (program, line), result),
    ensures
        result is Ok && result->Ok_0 is Help <==> line@.len() == 1 && (says(line@[0], "-h"@)
            || says(line@[0], "--help"@)),
        result is Ok && result->Ok_0 is Version <==> line@.len() == 1 && (says(line@[0], "-V"@)
            || says(line@[0], "--version"@)),
        result is Ok && result->Ok_0 is Inspect && line@.len() == 1 ==> {
            &&& line@[0].text matches Some(text) ==> text@.len() == 0 || text@[0] != '-'
            &&& result->Ok_0->Inspect_0.path == line@[0].path
        },
        line@.len() == 0 ==> result is Err,
{
    lemma_texts();
    let all = line@;
    if all.len() == 1 {
        reveal_strlit("-h");
        reveal_strlit("--help");
        reveal_strlit("-V");
        reveal_strlit("--version");
        assert("-h"@[1] != "-V"@[1]);
        reveal_with_fuel(arguments::progress_from, 3);
        assert(says(all[0], "-h"@) == (arguments::argument_text(all[0]) == Some("-h"@)));
        assert(says(all[0], "--help"@) == (arguments::argument_text(all[0]) == Some("--help"@)));
        assert(says(all[0], "-V"@) == (arguments::argument_text(all[0]) == Some("-V"@)));
        assert(says(all[0], "--version"@) == (arguments::argument_text(all[0]) == Some(
            "--version"@,
        )));
    }
}

} // verus!
