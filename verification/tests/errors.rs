use agent_resume::error::{io_text, json_error_message};
use agent_resume::text::{decimal_text, has_newline, is_blank};
use agent_resume::{Checkpoint, ResumeError};
use std::io::{Error, ErrorKind};

#[test]
fn errors_say_what_is_wrong() {
    assert_eq!(
        ResumeError::NoCheckpoint("here".to_string()).to_string(),
        "no checkpoint: here"
    );
    assert_eq!(
        ResumeError::CheckpointCorrupt { message: "bad".to_string(), line_number: Some(47) }
            .to_string(),
        "checkpoint corrupt at line 47: bad"
    );
    assert_eq!(
        ResumeError::CheckpointCorrupt { message: "bad".to_string(), line_number: None }
            .to_string(),
        "checkpoint corrupt: bad"
    );
    assert_eq!(
        ResumeError::from(Error::new(ErrorKind::Other, "no disk")).to_string(),
        "IO error: no disk"
    );
    assert_eq!(
        ResumeError::NewlineInPayload.to_string(),
        "checkpoint payload contains a newline"
    );
}

#[test]
fn a_json_error_says_where() {
    match Checkpoint::from_json("not json") {
        Err(error) => {
            assert_eq!(error.to_string(), "JSON error: expected ident at line 1 column 2")
        }
        Ok(_) => panic!("read"),
    }
}

#[test]
fn numbers_are_written_in_decimal() {
    assert_eq!(decimal_text(0), "0");
    assert_eq!(decimal_text(9), "9");
    assert_eq!(decimal_text(10), "10");
    assert_eq!(decimal_text(1234567890), "1234567890");
    assert_eq!(decimal_text(usize::MAX), usize::MAX.to_string());
}

#[test]
fn white_space_is_blank() {
    assert!(is_blank(""));
    assert!(is_blank(" \t\r\u{b}\u{c}\u{85}\u{a0}\u{1680}\u{2003}\u{2028}\u{2029}\u{202f}\u{205f}\u{3000}"));
    assert!(!is_blank(" x "));
    assert!(!is_blank("\u{200b}"));
    for n in 0..=0x10_FFFFu32 {
        if let Some(c) = char::from_u32(n) {
            assert_eq!(is_blank(&c.to_string()), c.to_string().trim().is_empty());
        }
    }
}

#[test]
fn line_feeds_are_found() {
    assert!(!has_newline(""));
    assert!(!has_newline("a\rb"));
    assert!(has_newline("a\n"));
}

#[test]
fn an_io_error_says_its_words() {
    assert_eq!(io_text("no disk"), "IO error: no disk");
    assert_eq!(io_text(""), "IO error: ");
}

#[test]
fn a_json_error_says_its_words() {
    assert_eq!(json_error_message("expected ident"), "JSON error: expected ident");
}

/// A stream that cannot be read.
struct Broken;

impl std::io::Read for Broken {
    fn read(&mut self, _: &mut [u8]) -> std::io::Result<usize> {
        Err(Error::new(ErrorKind::Other, "no disk"))
    }
}

#[test]
fn a_json_error_of_a_stream_comes_from_io() {
    let error = serde_json::from_reader::<Broken, serde_json::Value>(Broken).unwrap_err();
    let error = ResumeError::from(error);
    assert!(error.is_io());
    assert_eq!(error.to_string(), "JSON error: no disk");
    assert!(ResumeError::from(Error::new(ErrorKind::Other, "no disk")).is_io());
    assert!(!Checkpoint::from_json("not json").unwrap_err().is_io());
    assert!(!ResumeError::NewlineInPayload.is_io());
}
