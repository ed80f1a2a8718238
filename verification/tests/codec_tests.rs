//! Conversation codec behaviour: emission format, parsing, tolerance, errors,
//! and the structural diff.

use servirtium::markdown::error::{
    Error as MdError, MarkdownsDifferenceLocation, MarkdownsDifferenceType,
};
use servirtium::{
    InteractionData, MarkdownData, MarkdownInteractionManager, MarkdownManager, RequestData,
    ResponseData,
};

fn interaction(
    number: u8,
    method: &str,
    uri: &str,
    request_headers: Vec<(&str, &str)>,
    request_body: &str,
    status: u16,
    response_headers: Vec<(&str, &str)>,
    response_body: &str,
) -> InteractionData {
    InteractionData {
        interaction_number: number,
        request_data: RequestData {
            uri: uri.to_string(),
            method: method.to_string(),
            headers: request_headers
                .into_iter()
                .map(|(k, v)| (k.to_string(), v.to_string()))
                .collect(),
            body: request_body.to_string(),
        },
        response_data: ResponseData {
            status_code: status,
            headers: response_headers
                .into_iter()
                .map(|(k, v)| (k.to_string(), v.to_string()))
                .collect(),
            body: response_body.to_string(),
        },
    }
}

fn manager() -> MarkdownInteractionManager {
    MarkdownInteractionManager::new("conversation.md".to_string())
}

#[test]
fn emission_matches_the_grammar_exactly() {
    let data = vec![interaction(
        0,
        "GET",
        "/ping",
        vec![("accept", "*/*")],
        "",
        200,
        vec![("content-type", "text/plain")],
        "pong",
    )];
    let text = manager().save_interactions(&data);
    let expected = "## Interaction 0: GET /ping\r\n\r\n\
        ### Request headers recorded for playback:\r\n\r\n\
        ```\r\naccept: */*\r\n```\r\n\r\n\
        ### Request body recorded for playback ():\r\n\r\n\
        ```\r\n\r\n```\r\n\r\n\
        ### Response headers recorded for playback:\r\n\r\n\
        ```\r\ncontent-type: text/plain\n```\r\n\r\n\
        ### Response body recorded for playback (200: text/plain):\r\n\r\n\
        ```\r\npong\r\n```\r\n\r\n";
    assert_eq!(text, expected);
}

#[test]
fn emission_sorts_headers_and_keeps_the_last_duplicate() {
    let data = vec![interaction(
        0,
        "GET",
        "/x",
        vec![("zz", "1"), ("aa", "2"), ("zz", "3")],
        "b",
        200,
        vec![],
        "r",
    )];
    let text = manager().save_interactions(&data);
    let loaded = manager().load_interactions(&text).unwrap();
    assert_eq!(
        loaded[0].request_data.headers,
        vec![
            ("aa".to_string(), "2".to_string()),
            ("zz".to_string(), "3".to_string())
        ]
    );
}

#[test]
fn parse_of_emitted_conversation_returns_it_canonicalised() {
    let data = vec![
        interaction(
            0,
            "GET",
            "/a?q=1",
            vec![("host", "example.test"), ("accept", "*/*")],
            "request one",
            200,
            vec![("content-type", "text/plain")],
            "alpha",
        ),
        interaction(
            1,
            "POST",
            "/b",
            vec![],
            "line one\nline two",
            404,
            vec![("x-marker", "yes")],
            "beta",
        ),
    ];
    let text = manager().save_interactions(&data);
    let loaded = manager().load_interactions(&text).unwrap();
    assert_eq!(loaded.len(), 2);
    assert_eq!(loaded[0].interaction_number, 0);
    assert_eq!(loaded[0].request_data.method, "GET");
    assert_eq!(loaded[0].request_data.uri, "/a?q=1");
    assert_eq!(loaded[0].request_data.body, "request one");
    assert_eq!(
        loaded[0].request_data.headers,
        vec![
            ("accept".to_string(), "*/*".to_string()),
            ("host".to_string(), "example.test".to_string())
        ]
    );
    assert_eq!(loaded[0].response_data.status_code, 200);
    assert_eq!(loaded[0].response_data.body, "alpha");
    assert_eq!(loaded[1].interaction_number, 1);
    assert_eq!(loaded[1].request_data.method, "POST");
    assert_eq!(loaded[1].request_data.body, "line one\nline two");
    assert_eq!(loaded[1].response_data.status_code, 404);
    assert_eq!(loaded[1].response_data.body, "beta");
    // writing what was read back gives a byte-identical document
    let again = manager().save_interactions(&loaded);
    assert_eq!(again, text);
}

#[test]
fn parser_tolerates_padding_and_stray_text() {
    let data = vec![interaction(0, "GET", "/x", vec![], "body", 200, vec![], "resp")];
    let text = manager().save_interactions(&data);
    let noisy = format!("Some preface notes.\r\n\r\n{}\r\nTrailing commentary.", text);
    let loaded = manager().load_interactions(&noisy).unwrap();
    assert_eq!(loaded.len(), 1);
    assert_eq!(loaded[0].request_data.body, "body");
    assert_eq!(loaded[0].response_data.body, "resp");
}

#[test]
fn parse_reports_invalid_format_on_a_block_free_document() {
    let err = manager().load_interactions("nothing here").unwrap_err();
    assert!(matches!(err, MdError::InvalidMarkdownFormat));
    let err = manager().load_interactions("").unwrap_err();
    assert!(matches!(err, MdError::InvalidMarkdownFormat));
}

#[test]
fn parse_reports_an_interaction_number_out_of_range() {
    let data = vec![interaction(0, "GET", "/x", vec![], "b", 200, vec![], "r")];
    let text = manager()
        .save_interactions(&data)
        .replace("## Interaction 0:", "## Interaction 300:");
    let err = manager().load_interactions(&text).unwrap_err();
    assert!(matches!(err, MdError::InvalidInteractionNumber));
}

#[test]
fn parse_reports_a_status_code_out_of_range() {
    let data = vec![interaction(0, "GET", "/x", vec![], "b", 200, vec![], "r")];
    let text = manager()
        .save_interactions(&data)
        .replace("(200: ", "(70000: ");
    let err = manager().load_interactions(&text).unwrap_err();
    assert!(matches!(err, MdError::InvalidStatusCode));
}

#[test]
fn header_lines_collapse_duplicates_to_the_last_value() {
    let parsed =
        MarkdownInteractionManager::parse_headers("a: one\r\nb: two\r\na: three\r\nnot a header\r\n");
    assert_eq!(
        parsed,
        vec![
            ("a".to_string(), "three".to_string()),
            ("b".to_string(), "two".to_string())
        ]
    );
}

#[test]
fn comparing_a_conversation_with_itself_reports_no_difference() {
    let data = vec![interaction(
        0,
        "GET",
        "/x",
        vec![("k", "v")],
        "same body",
        200,
        vec![("content-type", "text/plain")],
        "same response",
    )];
    let text = manager().save_interactions(&data);
    assert!(manager().check_data_unchanged(&text, &data).is_ok());
}

#[test]
fn comparison_normalises_line_endings_and_outer_whitespace() {
    let recorded = vec![interaction(0, "GET", "/x", vec![], "a\r\nb", 200, vec![], " r ")];
    let fresh = vec![interaction(0, "GET", "/x", vec![], "  a\nb\n", 200, vec![], "r")];
    let text = manager().save_interactions(&recorded);
    assert!(manager().check_data_unchanged(&text, &fresh).is_ok());
}

#[test]
fn a_changed_response_body_is_located_at_its_line_and_column() {
    let recorded = vec![interaction(0, "GET", "/ping", vec![], "", 200, vec![], "pong")];
    let text = manager().save_interactions(&recorded);
    let fresh = vec![interaction(0, "GET", "/ping", vec![], "", 200, vec![], "pang")];
    let err = manager().check_data_unchanged(&text, &fresh).unwrap_err();
    match err {
        MdError::MarkdownsDiffer(MarkdownsDifferenceType::Body(d), loc) => {
            assert!(matches!(loc, MarkdownsDifferenceLocation::Response));
            assert_eq!(d.line, 1);
            assert_eq!(d.column, 2);
            assert_eq!(d.old_context, "pong");
            assert_eq!(d.new_context, "pang");
            assert_eq!(
                d.message(),
                "Bodies differ at line 1, column 2. Old: \"pong\". New: \"pang\""
            );
        }
        other => panic!("wrong difference: {:?}", other),
    }
}

#[test]
fn a_change_on_a_later_line_counts_lines_and_columns_from_one() {
    let old_body = "ab\ncd";
    let new_body = "ab\nxd";
    let diff = MarkdownInteractionManager::find_difference(old_body, new_body).unwrap();
    assert_eq!(diff.line, 2);
    assert_eq!(diff.column, 2);
}

#[test]
fn context_windows_clamp_to_the_body_ends() {
    let body = "abcdefghijklmnopqrstuvwxyz";
    // at position 3 the window reaches 3 back and 10 forward
    assert_eq!(MarkdownInteractionManager::get_context(body, 3), "abcdefghijklm");
    // in the middle it reaches 10 each way
    assert_eq!(
        MarkdownInteractionManager::get_context(body, 13),
        "defghijklmnopqrstuvw"
    );
    // near the end it stops at the last character
    assert_eq!(MarkdownInteractionManager::get_context(body, 24), "opqrstuvwxyz");
}

#[test]
fn a_missing_header_is_reported_before_value_differences() {
    let lhs = vec![("only-here".to_string(), "1".to_string())];
    let rhs: Vec<(String, String)> = vec![];
    let diff = MarkdownInteractionManager::check_headers(&lhs, &rhs).unwrap();
    assert_eq!(diff.header_name, "only-here");
    assert_eq!(diff.old_header_value, Some("1".to_string()));
    assert_eq!(diff.new_header_value, None);
    assert_eq!(
        diff.message(),
        "Headers differ. old - \"only-here\": \"1\", new - <no header value>"
    );
}

#[test]
fn a_header_present_only_on_the_new_side_is_also_reported() {
    let lhs: Vec<(String, String)> = vec![];
    let rhs = vec![("extra".to_string(), "2".to_string())];
    let diff = MarkdownInteractionManager::check_headers(&lhs, &rhs).unwrap();
    assert_eq!(diff.header_name, "extra");
    assert_eq!(diff.old_header_value, None);
    assert_eq!(diff.new_header_value, Some("2".to_string()));
}

#[test]
fn header_values_compare_after_trimming() {
    let lhs = vec![("k".to_string(), " v ".to_string())];
    let rhs = vec![("k".to_string(), "v".to_string())];
    assert!(MarkdownInteractionManager::check_headers(&lhs, &rhs).is_none());
    let rhs2 = vec![("k".to_string(), "w".to_string())];
    let diff = MarkdownInteractionManager::check_headers(&lhs, &rhs2).unwrap();
    assert_eq!(diff.old_header_value, Some("v".to_string()));
    assert_eq!(diff.new_header_value, Some("w".to_string()));
}

#[test]
fn the_single_interaction_view_reads_the_first_block() {
    let request = RequestData {
        uri: "/one".to_string(),
        method: "PUT".to_string(),
        headers: vec![("h".to_string(), "1".to_string())],
        body: "payload".to_string(),
    };
    let response = ResponseData {
        status_code: 201,
        headers: vec![("content-type".to_string(), "text/plain".to_string())],
        body: "done".to_string(),
    };
    let text = MarkdownManager::save_markdown(&request, &response);
    let loaded: MarkdownData = MarkdownManager::load_markdown(&text).unwrap();
    assert_eq!(loaded.interaction_number, 0);
    assert_eq!(loaded.method, "PUT");
    assert_eq!(loaded.uri, "/one");
    assert_eq!(loaded.request_body, "payload");
    assert_eq!(loaded.status_code, 201);
    assert_eq!(loaded.response_body, "done");
    assert!(MarkdownManager::check_markdown_data_unchanged(&text, &request, &response).unwrap());
    let other = ResponseData {
        status_code: 201,
        headers: response.headers.clone(),
        body: "changed".to_string(),
    };
    assert!(!MarkdownManager::check_markdown_data_unchanged(&text, &request, &other).unwrap());
}

#[test]
fn headers_equal_requires_matching_sizes_and_trimmed_values() {
    let a = vec![("k".to_string(), "v".to_string())];
    let b = vec![("k".to_string(), " v".to_string())];
    assert!(MarkdownManager::headers_equal(&a, &b));
    let c = vec![
        ("k".to_string(), "v".to_string()),
        ("l".to_string(), "w".to_string()),
    ];
    assert!(!MarkdownManager::headers_equal(&a, &c));
}
