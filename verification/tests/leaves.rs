use snacks::anyhow::ParseAnyhow;
use snacks::error::{Error, ErrorCode};
use snacks::simple::{alphanumdot0, alphanumdot1, ByteClass, CharRun1};
use snacks::weblink::{link_char, weblink};

#[test]
fn cannot_parse_empty() {
    let input: &[u8] = b"";
    let result = weblink(input);
    assert!(result.is_err());
}

#[test]
fn can_parse_github_link() {
    let input: &[u8] = b"https://github.com/cato-001/snacks.git other";
    let result = weblink(input);
    assert_eq!(
        result,
        Ok((
            b" other" as &[u8],
            b"https://github.com/cato-001/snacks.git" as &[u8]
        ))
    );
}

#[test]
fn weblink_accepts_plain_http() {
    let result = weblink(b"http://example.org/a end");
    assert_eq!(
        result,
        Ok((b" end" as &[u8], b"http://example.org/a" as &[u8]))
    );
}

#[test]
fn weblink_with_empty_path_stops_after_scheme() {
    let result = weblink(b"https:// other");
    assert_eq!(result, Ok((b" other" as &[u8], b"https://" as &[u8])));
}

#[test]
fn weblink_without_scheme_fails() {
    let result = weblink(b"ftp://example.org");
    assert_eq!(
        result,
        Err(Error {
            pos: 0,
            code: ErrorCode::ItemFailed,
        })
    );
}

#[test]
fn link_char_takes_segment_bytes() {
    let result = link_char(b"-a_b.c7/x");
    assert_eq!(result, Ok((b"/x" as &[u8], b"-a_b.c7" as &[u8])));
}

#[test]
fn link_char_rejects_leading_slash() {
    let result = link_char(b"/x");
    assert_eq!(
        result,
        Err(Error {
            pos: 0,
            code: ErrorCode::ItemFailed,
        })
    );
}

#[test]
fn alphanumdot0_takes_run_and_never_fails() {
    assert_eq!(
        alphanumdot0(b"abc.12!rest"),
        Ok((b"!rest" as &[u8], b"abc.12" as &[u8]))
    );
    assert_eq!(alphanumdot0(b""), Ok((b"" as &[u8], b"" as &[u8])));
    assert_eq!(
        alphanumdot0(b"!abc"),
        Ok((b"!abc" as &[u8], b"" as &[u8]))
    );
}

#[test]
fn alphanumdot1_requires_nonempty_run() {
    assert_eq!(
        alphanumdot1(b"a.b c"),
        Ok((b" c" as &[u8], b"a.b" as &[u8]))
    );
    assert_eq!(
        alphanumdot1(b"!x"),
        Err(Error {
            pos: 0,
            code: ErrorCode::ItemFailed,
        })
    );
}

#[test]
fn parse_anyhow_keeps_only_the_output() {
    let word = CharRun1 {
        class: ByteClass::Alphanumeric,
    };
    assert_eq!(word.parse_anyhow(b"abc def"), Ok(b"abc".to_vec()));
    assert_eq!(
        word.parse_anyhow(b" x"),
        Err(Error {
            pos: 0,
            code: ErrorCode::ItemFailed,
        })
    );
}

#[test]
fn error_messages_name_the_failure() {
    let not_found = Error {
        pos: 3,
        code: ErrorCode::NotFound,
    };
    assert_eq!(not_found.message(), "marker not found in the remaining input");
    let empty_list = Error {
        pos: 0,
        code: ErrorCode::SeparatedListEmpty,
    };
    assert_eq!(empty_list.message(), "separated run matched no item");
    let item_failed = Error {
        pos: 0,
        code: ErrorCode::ItemFailed,
    };
    assert_eq!(item_failed.message(), "item parser failed");
}
