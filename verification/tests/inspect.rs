use std::path::PathBuf;

use ggml::gguf::error::Error;
use ggml::gguf::types::ScalarValue;
use ggml::inspect::arguments::{parse_args, Argument, Command, Options, DEFAULT_MAX_FILE_BYTES};
use ggml::inspect::report::{inspect, render_scalar, FloatText, DEFAULT_STRING_PREVIEW_CHARS};
use ggml::mapping::check_file;

struct Shortest;

impl FloatText for Shortest {
    fn single(&self, bits: u32) -> String {
        format!("{:?}", f32::from_bits(bits))
    }

    fn double(&self, bits: u64) -> String {
        format!("{:?}", f64::from_bits(bits))
    }
}

fn args(values: &[&str]) -> Vec<Argument> {
    values
        .iter()
        .map(|value| Argument {
            text: Some((*value).to_owned()),
            path: PathBuf::from(value),
        })
        .collect()
}

fn parse(values: &[&str]) -> Result<Command, String> {
    parse_args(values[0], &args(&values[1..]))
}

fn push_string(bytes: &mut Vec<u8>, value: &str) {
    bytes.extend_from_slice(&(value.len() as u64).to_le_bytes());
    bytes.extend_from_slice(value.as_bytes());
}

fn empty_file() -> Vec<u8> {
    let mut bytes = Vec::new();
    bytes.extend_from_slice(b"GGUF");
    bytes.extend_from_slice(&3_u32.to_le_bytes());
    bytes.extend_from_slice(&0_u64.to_le_bytes());
    bytes.extend_from_slice(&0_u64.to_le_bytes());
    bytes
}

#[test]
fn parses_default_mapping_limit() {
    let command = parse(&["gguf-inspect", "model.gguf"]).unwrap();
    assert_eq!(
        command,
        Command::Inspect(Options {
            path: PathBuf::from("model.gguf"),
            max_file_bytes: DEFAULT_MAX_FILE_BYTES,
            full_output: false,
        })
    );
}

#[test]
fn parses_explicit_mapping_limit() {
    let command = parse(&[
        "gguf-inspect",
        "--full",
        "--max-file-bytes",
        "4096",
        "model.gguf",
    ])
    .unwrap();
    assert_eq!(
        command,
        Command::Inspect(Options {
            path: PathBuf::from("model.gguf"),
            max_file_bytes: 4096,
            full_output: true,
        })
    );
}

#[test]
fn rejects_zero_mapping_limit() {
    let error = parse(&[
        "gguf-inspect",
        "--max-file-bytes",
        "0",
        "model.gguf",
    ])
    .unwrap_err();
    assert_eq!(error, "--max-file-bytes must be greater than zero");
}

#[test]
fn rejects_unexpected_arguments_with_usage() {
    let error = parse(&["gguf-inspect", "one.gguf", "two.gguf"]).unwrap_err();
    assert_eq!(
        error,
        "usage: gguf-inspect [--full] [--max-file-bytes <bytes>] [--] <model.gguf>"
    );
}

#[test]
fn supports_help_and_version() {
    assert!(matches!(
        parse(&["gguf-inspect", "--help"]).unwrap(),
        Command::Help(_)
    ));
    assert_eq!(
        parse(&["gguf-inspect", "--version"]).unwrap(),
        Command::Version
    );
}

#[test]
fn escapes_and_truncates_untrusted_strings() {
    let hostile = format!("\u{1b}[31m{}", "x".repeat(300));
    let rendered = render_scalar(ScalarValue::String(&hostile), false, &Shortest);
    assert!(rendered.starts_with(r#""\u{1b}[31m"#));
    assert!(rendered.ends_with(&format!("<truncated; {} bytes total>", hostile.len())));
    assert!(!rendered.contains('\u{1b}'));
}

#[test]
fn inspects_a_memory_mapped_gguf() {
    let lines = inspect(&empty_file(), false, &Shortest).unwrap();
    let stdout = lines.join("\n");
    assert!(stdout.contains("file bytes: 24"));
    assert!(stdout.contains("version: 3"));
    assert!(stdout.contains("metadata entries: 0"));
    assert!(stdout.contains("tensors: 0"));
    assert!(stdout.contains("data offset: 24"));
}

#[test]
fn rejects_a_file_over_the_explicit_mapping_limit() {
    let Command::Inspect(options) =
        parse(&["gguf-inspect", "--max-file-bytes", "23", "model.gguf"]).unwrap()
    else {
        panic!("no inspection was asked for");
    };
    let error = check_file(true, empty_file().len() as u64, options.max_file_bytes).unwrap_err();
    assert!(error.message().contains("file size 24 exceeds mapping limit 23"));
}

#[test]
fn arguments_behind_dashes_are_paths() {
    for name in ["--full", "--", "-h", "model.gguf"] {
        let command = parse(&["gguf-inspect", "--max-file-bytes", "+7", "--", name]).unwrap();
        assert_eq!(
            command,
            Command::Inspect(Options {
                path: PathBuf::from(name),
                max_file_bytes: 7,
                full_output: false,
            })
        );
    }
    let arguments = [
        Argument {
            text: None,
            path: PathBuf::from("odd.gguf"),
        },
    ];
    assert_eq!(
        parse_args("gguf-inspect", &arguments).unwrap(),
        Command::Inspect(Options {
            path: PathBuf::from("odd.gguf"),
            max_file_bytes: DEFAULT_MAX_FILE_BYTES,
            full_output: false,
        })
    );
}

#[test]
fn rejects_arguments_that_it_does_not_know() {
    let usage = "usage: tool [--full] [--max-file-bytes <bytes>] [--] <model.gguf>";
    for values in [
        vec!["tool"],
        vec!["tool", "--"],
        vec!["tool", "--unknown", "a"],
        vec!["tool", "-h", "a"],
        vec!["tool", "--full", "--full", "a"],
        vec!["tool", "--max-file-bytes"],
        vec!["tool", "--max-file-bytes", "1", "--max-file-bytes", "2", "a"],
    ] {
        assert_eq!(parse(&values).unwrap_err(), usage);
    }
    assert_eq!(parse(&["tool", "-h"]).unwrap(), Command::Help(usage.to_owned()));
    assert_eq!(parse(&["tool", "-V"]).unwrap(), Command::Version);
    for number in ["", "-1", "1.0", "18446744073709551616", "x"] {
        assert_eq!(
            parse(&["tool", "--max-file-bytes", number, "a"]).unwrap_err(),
            "--max-file-bytes must be a decimal integer"
        );
    }
    assert!(parse(&["tool", "--max-file-bytes", "18446744073709551615", "a"]).is_ok());
}

#[test]
fn renders_scalars_with_their_types() {
    let text = |value| render_scalar(value, false, &Shortest);
    assert_eq!(text(ScalarValue::U8(7)), "U8(7)");
    assert_eq!(text(ScalarValue::I8(-128)), "I8(-128)");
    assert_eq!(text(ScalarValue::U16(65_535)), "U16(65535)");
    assert_eq!(text(ScalarValue::I16(-1)), "I16(-1)");
    assert_eq!(text(ScalarValue::U32(0)), "U32(0)");
    assert_eq!(text(ScalarValue::I32(i32::MIN)), "I32(-2147483648)");
    assert_eq!(text(ScalarValue::F32(1.5_f32.to_bits())), "F32(1.5)");
    assert_eq!(text(ScalarValue::Bool(true)), "Bool(true)");
    assert_eq!(text(ScalarValue::U64(u64::MAX)), "U64(18446744073709551615)");
    assert_eq!(text(ScalarValue::I64(i64::MIN)), "I64(-9223372036854775808)");
    assert_eq!(text(ScalarValue::F64(0.1_f64.to_bits())), "F64(0.1)");
}

#[test]
fn shows_whole_strings_where_all_is_asked_for() {
    let exact = "\u{e9}".repeat(DEFAULT_STRING_PREVIEW_CHARS);
    assert_eq!(
        render_scalar(ScalarValue::String(&exact), false, &Shortest),
        format!("{exact:?}")
    );
    let longer = format!("{exact}\"");
    assert_eq!(
        render_scalar(ScalarValue::String(&longer), true, &Shortest),
        format!("{longer:?}")
    );
    assert_eq!(
        render_scalar(ScalarValue::String(&longer), false, &Shortest),
        format!("{exact:?}...<truncated; 513 bytes total>")
    );
}

#[test]
fn reports_metadata_and_tensors_in_order() {
    let mut bytes = Vec::new();
    bytes.extend_from_slice(b"GGUF");
    bytes.extend_from_slice(&3_u32.to_le_bytes());
    bytes.extend_from_slice(&1_u64.to_le_bytes());
    bytes.extend_from_slice(&2_u64.to_le_bytes());
    push_string(&mut bytes, "general.name");
    bytes.extend_from_slice(&8_u32.to_le_bytes());
    push_string(&mut bytes, "a\nb");
    push_string(&mut bytes, "list");
    bytes.extend_from_slice(&9_u32.to_le_bytes());
    bytes.extend_from_slice(&0_u32.to_le_bytes());
    bytes.extend_from_slice(&2_u64.to_le_bytes());
    bytes.extend_from_slice(&[1, 2]);
    push_string(&mut bytes, "weights");
    bytes.extend_from_slice(&2_u32.to_le_bytes());
    bytes.extend_from_slice(&2_u64.to_le_bytes());
    bytes.extend_from_slice(&3_u64.to_le_bytes());
    bytes.extend_from_slice(&0_u32.to_le_bytes());
    bytes.extend_from_slice(&0_u64.to_le_bytes());
    while bytes.len() % 32 != 0 {
        bytes.push(0);
    }
    let offset = bytes.len();
    bytes.extend_from_slice(&[0; 32]);
    let lines = inspect(&bytes, false, &Shortest).unwrap();
    let expected = [
        format!("file bytes: {}", bytes.len()),
        "version: 3".to_owned(),
        "alignment: 32".to_owned(),
        "metadata entries: 2".to_owned(),
        "tensors: 1".to_owned(),
        format!("data offset: {offset}"),
        "metadata \"general.name\" = \"a\\nb\"".to_owned(),
        "metadata \"list\" = array<U8>[2]".to_owned(),
        format!("tensor \"weights\" [2, 3] F32 offset=0 file_offset={offset} bytes=24"),
    ];
    assert_eq!(lines, expected);
}

#[test]
fn passes_on_why_a_file_cannot_be_read() {
    let error: Error = inspect(b"GGML", false, &Shortest).unwrap_err();
    assert!(!error.message().is_empty());
}
