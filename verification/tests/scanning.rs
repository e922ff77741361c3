use snacks::compose::{Delimited, Preceded};
use snacks::error::{Error, ErrorCode};
use snacks::find::{find_all, find_all_into, find_first};
use snacks::recognize_separated::{recognize_separated0, recognize_separated1};
use snacks::simple::{ByteClass, CharRun1, OneIn, Tag};
use snacks::take_all::{take_all, take_all_into};

/// The item parser of the marker-scanner examples: a braced alphanumeric
/// run, yielding the content between the braces.
fn braced() -> Delimited<Tag, CharRun1, Tag> {
    Delimited {
        first: Tag { pat: b"{".to_vec() },
        second: CharRun1 {
            class: ByteClass::Alphanumeric,
        },
        third: Tag { pat: b"}".to_vec() },
    }
}

#[test]
fn find_can_find_in_empty() {
    let input: &[u8] = b"";
    let result = find_all(b"http", &braced(), input);
    assert_eq!(result, Ok((input, Vec::new())));
}

#[test]
fn find_can_collect_value() {
    let input: &[u8] = b"This is a {text} with some {special} {words}!";
    let result = find_all(b"{", &braced(), input);
    let expected: Vec<Vec<u8>> = vec![b"text".to_vec(), b"special".to_vec(), b"words".to_vec()];
    assert_eq!(result, Ok((b"!" as &[u8], expected)));
}

#[test]
fn find_all_can_find_in_empty() {
    let input: &[u8] = b"";
    let result = find_all(b"http", &braced(), input);
    assert_eq!(result, Ok((input, Vec::new())));
}

#[test]
fn find_all_can_collect_value() {
    let input: &[u8] = b"This is a {text} with some {special} {words}!";
    let result = find_all(b"{", &braced(), input);
    let expected: Vec<Vec<u8>> = vec![b"text".to_vec(), b"special".to_vec(), b"words".to_vec()];
    assert_eq!(result, Ok((b"!" as &[u8], expected)));
}

#[test]
fn find_all_without_occurrence_returns_original_cursor() {
    let input: &[u8] = b"plain text without any marker";
    let result = find_all(b"{", &braced(), input);
    assert_eq!(result, Ok((input, Vec::new())));
}

#[test]
fn find_all_into_appends_to_provided_buffer() {
    let mut buffer: Vec<Vec<u8>> = vec![b"kept".to_vec()];
    let result = find_all_into(b"{", &braced(), b"pre {a} post", &mut buffer);
    assert_eq!(result, Ok((b" post" as &[u8], ())));
    assert_eq!(buffer, vec![b"kept".to_vec(), b"a".to_vec()]);
}

#[test]
fn find_first_returns_first_match() {
    let input: &[u8] = b"This is a {text} with some {special} {words}!";
    let result = find_first(b"{", &braced(), input);
    assert_eq!(
        result,
        Ok((b" with some {special} {words}!" as &[u8], b"text".to_vec()))
    );
}

#[test]
fn find_first_finds_leftmost_occurrence() {
    let marks = OneIn {
        class: ByteClass::InSet(b"a".to_vec()),
    };
    let result = find_first(b"a", &marks, b"xaya");
    assert_eq!(result, Ok((b"ya" as &[u8], b"a".to_vec())));
}

#[test]
fn find_first_fails_with_not_found_in_empty() {
    let result = find_first(b"{", &braced(), b"");
    assert_eq!(
        result,
        Err(Error {
            pos: 0,
            code: ErrorCode::NotFound,
        })
    );
}

#[test]
fn find_first_reports_exhaustion_position() {
    // both occurrences fail to parse, so the scan skips one marker length
    // past each and exhausts the input at position 2
    let result = find_first(b"{", &braced(), b"{{");
    assert_eq!(
        result,
        Err(Error {
            pos: 2,
            code: ErrorCode::NotFound,
        })
    );
}

fn alphanumeric_run() -> CharRun1 {
    CharRun1 {
        class: ByteClass::Alphanumeric,
    }
}

fn any_of(set: &[u8]) -> CharRun1 {
    CharRun1 {
        class: ByteClass::InSet(set.to_vec()),
    }
}

fn none_of(set: &[u8]) -> CharRun1 {
    CharRun1 {
        class: ByteClass::NotInSet(set.to_vec()),
    }
}

#[test]
fn can_recognize_empty_separated0() {
    let input: &[u8] = b"";
    let result = recognize_separated0(&alphanumeric_run(), &any_of(b",; "), input);
    assert_eq!(result, Ok((b"" as &[u8], b"" as &[u8])));
}

#[test]
fn can_recognize_comma_separated_elements_separated0() {
    let input: &[u8] = b"all, comma, separated-elements";
    let result = recognize_separated0(&alphanumeric_run(), &any_of(b",; "), input);
    assert_eq!(
        result,
        Ok((b"-elements" as &[u8], b"all, comma, separated" as &[u8]))
    );
}

#[test]
fn can_recognize_empty_separated1() {
    let input: &[u8] = b"";
    let result = recognize_separated1(&alphanumeric_run(), &any_of(b",; "), input);
    assert!(result.is_err());
}

#[test]
fn can_recognize_comma_separated_elements_separated1() {
    let input: &[u8] = b"all, comma, separated-elements";
    let result = recognize_separated1(&alphanumeric_run(), &any_of(b",; "), input);
    assert_eq!(
        result,
        Ok((b"-elements" as &[u8], b"all, comma, separated" as &[u8]))
    );
}

#[test]
fn separated1_reports_empty_list_error() {
    let result = recognize_separated1(&alphanumeric_run(), &any_of(b",; "), b"-leading");
    assert_eq!(
        result,
        Err(Error {
            pos: 0,
            code: ErrorCode::SeparatedListEmpty,
        })
    );
}

#[test]
fn separated0_rerun_on_remaining_collects_nothing() {
    let input: &[u8] = b"all, comma, separated-elements";
    let (remaining, _) =
        recognize_separated0(&alphanumeric_run(), &any_of(b",; "), input).unwrap();
    let rerun = recognize_separated0(&alphanumeric_run(), &any_of(b",; "), remaining);
    assert_eq!(rerun, Ok((remaining, b"" as &[u8])));
}

fn tag_item(stop: &[u8]) -> Preceded<OneIn, CharRun1> {
    Preceded {
        first: OneIn {
            class: ByteClass::InSet(b"#".to_vec()),
        },
        second: none_of(stop),
    }
}

#[test]
fn can_parse_empty() {
    let input: &[u8] = b"";
    let result = take_all(&any_of(b"abc"), &any_of(b"def"), input);
    assert_eq!(result, Ok((b"" as &[u8], Vec::new())));
}

#[test]
fn can_take_one() {
    let input: &[u8] = b"abcdefghi";
    let result = take_all(&any_of(b"abc"), &any_of(b"def"), input);
    assert_eq!(result, Ok((b"ghi" as &[u8], vec![b"def".to_vec()])));
}

#[test]
fn can_take_tags() {
    let input: &[u8] = b"word1 word2 #tag1 #tag2 word3 #tag3 word4";
    let result = take_all(&none_of(b"#"), &tag_item(b" "), input);
    let expected: Vec<Vec<u8>> = vec![b"tag1".to_vec(), b"tag2".to_vec(), b"tag3".to_vec()];
    assert_eq!(result, Ok((b" word4" as &[u8], expected)));
}

#[test]
fn can_take_tags_newline() {
    let input: &[u8] = b"word1 word2 #tag1\n#tag2 word3\n#tag3\nword4";
    let result = take_all(&none_of(b"#"), &tag_item(b" \n"), input);
    let expected: Vec<Vec<u8>> = vec![b"tag1".to_vec(), b"tag2".to_vec(), b"tag3".to_vec()];
    assert_eq!(result, Ok((b"\nword4" as &[u8], expected)));
}

#[test]
fn can_take_from_start() {
    let input: &[u8] = b"#tag0 word1 word2 #tag1\n#tag2 word3\n#tag3\nword4";
    let result = take_all(&none_of(b"#"), &tag_item(b" \n"), input);
    let expected: Vec<Vec<u8>> = vec![
        b"tag0".to_vec(),
        b"tag1".to_vec(),
        b"tag2".to_vec(),
        b"tag3".to_vec(),
    ];
    assert_eq!(result, Ok((b"\nword4" as &[u8], expected)));
}

#[test]
fn can_run_example() {
    let input: &[u8] = b"An example #sentence with #cool tags!";
    let result = take_all(&none_of(b"#"), &tag_item(b" "), input);
    let expected: Vec<Vec<u8>> = vec![b"sentence".to_vec(), b"cool".to_vec()];
    assert_eq!(result, Ok((b" tags!" as &[u8], expected)));
}

#[test]
fn take_all_resets_before_failed_attempt_prefix() {
    // the prefix consumes "abc" but the item then fails, so the cursor is
    // reset to the position before that attempt's prefix step
    let input: &[u8] = b"abcxyz";
    let result = take_all(&any_of(b"abc"), &any_of(b"def"), input);
    assert_eq!(result, Ok((input, Vec::new())));
}

#[test]
fn find_all_skips_one_marker_length_on_item_failure() {
    // the item parse fails at both occurrences; each failure skips exactly
    // one marker length, and the scan ends at the input's end
    let result = find_all(b"{", &braced(), b"{{");
    assert_eq!(result, Ok((b"" as &[u8], Vec::new())));
}

#[test]
fn find_all_recovers_after_failed_occurrence() {
    let result = find_all(b"{", &braced(), b"{1 {ok}");
    assert_eq!(result, Ok((b"" as &[u8], vec![b"ok".to_vec()])));
}

#[test]
fn can_run_example_with_buffer() {
    let mut buffer: Vec<Vec<u8>> = Vec::new();
    let input: &[u8] = b"An example #sentence with #cool tags!";
    let result = take_all_into(&none_of(b"#"), &tag_item(b" "), input, &mut buffer);
    assert_eq!(result, Ok((b" tags!" as &[u8], ())));
    assert_eq!(buffer, vec![b"sentence".to_vec(), b"cool".to_vec()]);
}
