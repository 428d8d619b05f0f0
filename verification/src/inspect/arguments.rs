//! What is asked on the command line.

use vstd::prelude::*;
use vstd::string::*;

use crate::path;
use crate::text;

verus! {

/// How many bytes of a file are mapped at most, unless the caller says so.
pub const DEFAULT_MAX_FILE_BYTES: u64 = 1_099_511_627_776;

/// A command-line argument: its text, if it is one, and the path that it
/// stands for.
pub struct Argument {
    pub text: Option<String>,
    pub path: std::path::PathBuf,
}

/// What to inspect, and how.
#[derive(Debug, PartialEq, Eq)]
pub struct Options {
    pub path: std::path::PathBuf,
    pub max_file_bytes: u64,
    pub full_output: bool,
}

/// What is asked on the command line.
#[derive(Debug, PartialEq, Eq)]
pub enum Command {
    Inspect(Options),
    Help(String),
    Version,
}

/// What is asked on the command line, as a mathematical value. A path is given
/// by the number of its argument.
#[verifier::ext_equal]
pub enum Request {
    Inspect { path: int, max_file_bytes: u64, full_output: bool },
    Help(Seq<char>),
    Version,
}

/// What has been read of the arguments so far.
pub struct Progress {
    pub path: Option<int>,
    pub limit: Option<u64>,
    pub full_output: bool,
    pub positional_only: bool,
}

/// Nothing has been read yet.
pub open spec fn no_progress() -> Progress {
    Progress { path: None, limit: None, full_output: false, positional_only: false }
}

/// The text of an argument.
pub open spec fn argument_text(argument: Argument) -> Option<Seq<char>> {
    match argument.text {
        Some(text) => Some(text@),
        None => None,
    }
}

/// How the program is used.
pub open spec fn usage_text(program: Seq<char>) -> Seq<char> {
    "usage: "@ + program + " [--full] [--max-file-bytes <bytes>] [--] <model.gguf>"@
}

/// The limit that an argument stands for.
pub open spec fn limit_of(argument: Option<Seq<char>>) -> Result<u64, Seq<char>> {
    match argument {
        None => Err("--max-file-bytes must be a decimal integer"@),
        Some(text) => match text::number_of(text) {
            None => Err("--max-file-bytes must be a decimal integer"@),
            Some(value) => if value > u64::MAX {
                Err("--max-file-bytes must be a decimal integer"@)
            } else if value == 0 {
                Err("--max-file-bytes must be greater than zero"@)
            } else {
                Ok(value as u64)
            },
        },
    }
}

/// What the arguments from number `at` on ask, given what has been read before
/// them.
pub open spec fn progress_from(
    program: Seq<char>,
    arguments: Seq<Argument>,
    at: int,
    progress: Progress,
) -> Result<Progress, Seq<char>>
    decreases arguments.len() - at,
{
    if at < 0 || at >= arguments.len() {
        Ok(progress)
    } else {
        let text = argument_text(arguments[at]);
        if !progress.positional_only && text == Some("--"@) {
            progress_from(
                program,
                arguments,
                at + 1,
                Progress { positional_only: true, ..progress },
            )
        } else if !progress.positional_only && text == Some("--full"@) {
            if progress.full_output {
                Err(usage_text(program))
            } else {
                progress_from(
                    program,
                    arguments,
                    at + 1,
                    Progress { full_output: true, ..progress },
                )
            }
        } else if !progress.positional_only && text == Some("--max-file-bytes"@) {
            if progress.limit is Some || at + 1 >= arguments.len() {
                Err(usage_text(program))
            } else {
                match limit_of(argument_text(arguments[at + 1])) {
                    Err(reason) => Err(reason),
                    Ok(limit) => progress_from(
                        program,
                        arguments,
                        at + 2,
                        Progress { limit: Some(limit), ..progress },
                    ),
                }
            }
        } else if progress.path is Some || (!progress.positional_only && is_flag(text)) {
            Err(usage_text(program))
        } else {
            progress_from(program, arguments, at + 1, Progress { path: Some(at), ..progress })
        }
    }
}

/// A text that starts with a dash.
pub open spec fn is_flag(text: Option<Seq<char>>) -> bool {
    text matches Some(text) && text.len() > 0 && text[0] == '-'
}

/// What the arguments ask.
pub open spec fn request_of(program: Seq<char>, arguments: Seq<Argument>) -> Result<
    Request,
    Seq<char>,
> {
    if arguments.len() == 1 && (argument_text(arguments[0]) == Some("-h"@) || argument_text(
        arguments[0],
    ) == Some("--help"@)) {
        Ok(Request::Help(usage_text(program)))
    } else if arguments.len() == 1 && (argument_text(arguments[0]) == Some("-V"@) || argument_text(
        arguments[0],
    ) == Some("--version"@)) {
        Ok(Request::Version)
    } else {
        match progress_from(program, arguments, 0, no_progress()) {
            Err(reason) => Err(reason),
            Ok(progress) => match progress.path {
                None => Err(usage_text(program)),
                Some(path) => Ok(
                    Request::Inspect {
                        path,
                        max_file_bytes: match progress.limit {
                            Some(limit) => limit,
                            None => DEFAULT_MAX_FILE_BYTES,
                        },
                        full_output: progress.full_output,
                    },
                ),
            },
        }
    }
}

/// A command is what the arguments ask.
pub open spec fn commands(
    program: Seq<char>,
    arguments: Seq<Argument>,
    result: Result<Command, String>,
) -> bool {
    match request_of(program, arguments) {
        Err(reason) => result matches Err(text) && text@ == reason,
        Ok(Request::Help(help)) => result matches Ok(Command::Help(text)) && text@ == help,
        Ok(Request::Version) => result matches Ok(Command::Version),
        Ok(Request::Inspect { path, max_file_bytes, full_output }) => {
            &&& 0 <= path < arguments.len()
            &&& result matches Ok(Command::Inspect(options)) && options == (Options {
                path: arguments[path].path,
                max_file_bytes,
                full_output,
            })
        },
    }
}

/// Tests whether an argument has a given text.
fn argument_is(argument: &Argument, expected: &str) -> (same: bool)
    ensures
        same == (argument_text(*argument) == Some(expected@)),
{
    match &argument.text {
        Some(text) => text::same_text(text.as_str(), expected),
        None => false,
    }
}

/// Tests whether an argument starts with a dash.
fn argument_is_flag(argument: &Argument) -> (flag: bool)
    ensures
        flag == is_flag(argument_text(*argument)),
{
    match &argument.text {
        Some(text) => {
            let chars = text::characters(text.as_str());
            chars.len() > 0 && chars[0] == '-'
        },
        None => false,
    }
}

/// Tells how the program is used.
fn usage(program: &str) -> (text: String)
    ensures
        text@ == usage_text(program@),
{
    let mut text = String::new();
    text.append("usage: ");
    text.append(program);
    text.append(" [--full] [--max-file-bytes <bytes>] [--] <model.gguf>");
    assert(text@ =~= usage_text(program@));
    text
}

/// Reads the limit that an argument stands for.
fn parse_byte_limit(argument: &Argument) -> (result: Result<u64, String>)
    ensures
        match result {
            Ok(limit) => limit_of(argument_text(*argument)) == Ok::<u64, Seq<char>>(limit),
            Err(text) => limit_of(argument_text(*argument)) == Err::<u64, Seq<char>>(text@),
        },
{
    let number: Option<u64> = match &argument.text {
        Some(text) => text::parse_number(text.as_str()),
        None => None,
    };
    match number {
        None => Err(text::owned("--max-file-bytes must be a decimal integer")),
        Some(0) => Err(text::owned("--max-file-bytes must be greater than zero")),
        Some(limit) => Ok(limit),
    }
}

/// Reads the command line. `program` is the name that the program was started
/// with.
pub fn parse_args(program: &str, arguments: &[Argument]) -> (result: Result<Command, String>)
    ensures
        commands(program@, arguments@, result),
{
    if arguments.len() == 1 && (argument_is(&arguments[0], "-h") || argument_is(
        &arguments[0],
        "--help",
    )) {
        return Ok(Command::Help(usage(program)));
    }
    if arguments.len() == 1 && (argument_is(&arguments[0], "-V") || argument_is(
        &arguments[0],
        "--version",
    )) {
        return Ok(Command::Version);
    }
    let mut path: Option<usize> = None;
    let mut limit: Option<u64> = None;
    let mut full_output = false;
    let mut positional_only = false;
    let mut at: usize = 0;
    while at < arguments.len()
        invariant
            at <= arguments@.len(),
            path matches Some(path) ==> path < arguments@.len(),
            progress_from(program@, arguments@, 0, no_progress()) == progress_from(
                program@,
                arguments@,
                at as int,
                progress_so_far(path, limit, full_output, positional_only),
            ),
            asks_for_inspection(arguments@),
        decreases arguments@.len() - at,
    {
        let total: usize = arguments.len();
        let argument = &arguments[at];
        if !positional_only && argument_is(argument, "--") {
            positional_only = true;
        } else if !positional_only && argument_is(argument, "--full") {
            if full_output {
                return Err(usage(program));
            }
            full_output = true;
        } else if !positional_only && argument_is(argument, "--max-file-bytes") {
            if limit.is_some() {
                return Err(usage(program));
            }
            at += 1;
            if at >= total {
                return Err(usage(program));
            }
            match parse_byte_limit(&arguments[at]) {
                Ok(bytes) => {
                    limit = Some(bytes);
                },
                Err(reason) => {
                    return Err(reason);
                },
            }
        } else {
            if path.is_some() || (!positional_only && argument_is_flag(argument)) {
                return Err(usage(program));
            }
            path = Some(at);
        }
        at += 1;
    }
    match path {
        None => Err(usage(program)),
        Some(path) => Ok(
            Command::Inspect(
                Options {
                    path: path::copy_path(&arguments[path].path),
                    max_file_bytes: match limit {
                        Some(limit) => limit,
                        None => DEFAULT_MAX_FILE_BYTES,
                    },
                    full_output,
                },
            ),
        ),
    }
}

/// What has been read, as a mathematical value.
spec fn progress_so_far(
    path: Option<usize>,
    limit: Option<u64>,
    full_output: bool,
    positional_only: bool,
) -> Progress {
    Progress {
        path: match path {
            Some(path) => Some(path as int),
            None => None,
        },
        limit,
        full_output,
        positional_only,
    }
}

/// The arguments ask neither for help nor for the version.
spec fn asks_for_inspection(arguments: Seq<Argument>) -> bool {
    !(arguments.len() == 1 && (argument_text(arguments[0]) == Some("-h"@) || argument_text(
        arguments[0],
    ) == Some("--help"@) || argument_text(arguments[0]) == Some("-V"@) || argument_text(
        arguments[0],
    ) == Some("--version"@)))
}

/// Arguments are read on from where those before them have been read.
proof fn lemma_arguments_are_read_on(
    program: Seq<char>,
    arguments: Seq<Argument>,
    count: int,
    at: int,
    progress: Progress,
)
    requires
        0 <= at <= count <= arguments.len(),
        progress_from(program, arguments.take(count), at, progress) is Ok,
    ensures
        progress_from(program, arguments, at, progress) == progress_from(
            program,
            arguments,
            count,
            progress_from(program, arguments.take(count), at, progress)->Ok_0,
        ),
    decreases count - at,
{
    let before = arguments.take(count);
    if at < count {
        let text = argument_text(arguments[at]);
        assert(before[at] == arguments[at]);
        if !progress.positional_only && text == Some("--"@) {
            lemma_arguments_are_read_on(
                program,
                arguments,
                count,
                at + 1,
                Progress { positional_only: true, ..progress },
            );
        } else if !progress.positional_only && text == Some("--full"@) {
            lemma_arguments_are_read_on(
                program,
                arguments,
                count,
                at + 1,
                Progress { full_output: true, ..progress },
            );
        } else if !progress.positional_only && text == Some("--max-file-bytes"@) {
            assert(before[at + 1] == arguments[at + 1]);
            lemma_arguments_are_read_on(
                program,
                arguments,
                count,
                at + 2,
                Progress {
                    limit: Some(limit_of(argument_text(arguments[at + 1]))->Ok_0),
                    ..progress
                },
            );
        } else {
            lemma_arguments_are_read_on(
                program,
                arguments,
                count,
                at + 1,
                Progress { path: Some(at), ..progress },
            );
        }
    }
}

/// Behind `--`, the last argument is the path to inspect whatever its text is,
/// also where it looks like a flag or is no text.
pub proof fn law_argument_behind_dashes_is_a_path(
    program: Seq<char>,
    arguments: Seq<Argument>,
    before: Progress,
)
    requires
        arguments.len() >= 2,
        argument_text(arguments[arguments.len() - 2]) == Some("--"@),
        progress_from(program, arguments.take(arguments.len() - 2), 0, no_progress()) == Ok::<
            Progress,
            Seq<char>,
        >(before),
        before.path is None,
        !before.positional_only,
    ensures
        request_of(program, arguments) == Ok::<Request, Seq<char>>(
            Request::Inspect {
                path: arguments.len() - 1,
                max_file_bytes: match before.limit {
                    Some(limit) => limit,
                    None => DEFAULT_MAX_FILE_BYTES,
                },
                full_output: before.full_output,
            },
        ),
{
    lemma_arguments_are_read_on(program, arguments, arguments.len() - 2, 0, no_progress());
    reveal_with_fuel(progress_from, 3);
}

} // verus!
