//! Mutation pipeline behaviour: the built-in rewrites, their declaration
//! order, and the regular-expression variants.

use servirtium::mutations::{
    run_request_mutations, run_response_mutations, AddHeaderMutation, BodyMutation,
    BodyMutationKind, BodyReplaceMutation, BodyReplaceRegexMutation, HeadersMutation,
    HeadersMutationKind, MutationsBuilder, RemoveHeadersMutation, RemoveHeadersRegexMutation,
};
use servirtium::{RegexPattern, RequestData, ResponseData};

fn headers(entries: Vec<(&str, &str)>) -> Vec<(String, String)> {
    entries
        .into_iter()
        .map(|(k, v)| (k.to_string(), v.to_string()))
        .collect()
}

#[test]
fn add_header_inserts_or_overwrites() {
    let mutation = AddHeaderMutation::new("x-mark".to_string(), "one".to_string());
    let mut hs = headers(vec![("accept", "*/*")]);
    mutation.mutate(&mut hs);
    assert_eq!(hs, headers(vec![("accept", "*/*"), ("x-mark", "one")]));
    let overwrite = AddHeaderMutation::new("accept".to_string(), "text/plain".to_string());
    overwrite.mutate(&mut hs);
    assert_eq!(hs, headers(vec![("accept", "text/plain"), ("x-mark", "one")]));
}

#[test]
fn remove_headers_folds_names_to_lowercase() {
    let mutation = RemoveHeadersMutation::new(vec!["Date".to_string(), "X-TOKEN".to_string()]);
    let mut hs = headers(vec![("date", "now"), ("x-token", "s"), ("keep", "me")]);
    mutation.mutate(&mut hs);
    assert_eq!(hs, headers(vec![("keep", "me")]));
}

#[test]
fn remove_headers_by_regex_drops_every_matching_name() {
    let pattern = RegexPattern::compile("^x-").unwrap();
    let mutation = RemoveHeadersRegexMutation::new(vec![pattern]);
    let mut hs = headers(vec![("x-a", "1"), ("b", "2"), ("x-c", "3")]);
    mutation.mutate(&mut hs);
    assert_eq!(hs, headers(vec![("b", "2")]));
}

#[test]
fn an_invalid_pattern_is_refused_at_compile_time() {
    assert!(RegexPattern::compile("([").is_none());
    assert!(RegexPattern::compile("^x-[0-9]+$").is_some());
}

#[test]
fn body_replace_substitutes_every_occurrence() {
    let mutation = BodyReplaceMutation::new("TOKEN".to_string(), "REDACTED".to_string());
    let mut body = "TOKEN and TOKEN again".to_string();
    mutation.mutate(&mut body);
    assert_eq!(body, "REDACTED and REDACTED again");
}

#[test]
fn body_replace_with_empty_search_text_leaves_the_body_alone() {
    let mutation = BodyReplaceMutation::new(String::new(), "x".to_string());
    let mut body = "abc".to_string();
    mutation.mutate(&mut body);
    assert_eq!(body, "abc");
}

#[test]
fn body_replace_by_regex_substitutes_every_match() {
    let pattern = RegexPattern::compile("[0-9]+").unwrap();
    let mutation = BodyReplaceRegexMutation::new(pattern, "N".to_string());
    let mut body = "a1b22c333".to_string();
    mutation.mutate(&mut body);
    assert_eq!(body, "aNbNcN");
}

#[test]
fn the_builder_applies_mutations_in_declaration_order() {
    let request_mutations = MutationsBuilder::new()
        .body_replace("one".to_string(), "two".to_string())
        .body_replace("two".to_string(), "three".to_string())
        .into_request_mutations();
    let mut data = RequestData {
        uri: "/x".to_string(),
        method: "POST".to_string(),
        headers: vec![],
        body: "one".to_string(),
    };
    run_request_mutations(&request_mutations, &mut data);
    assert_eq!(data.body, "three");
}

#[test]
fn response_mutations_touch_headers_and_body_but_not_the_status() {
    let response_mutations = MutationsBuilder::new()
        .remove_headers(vec!["Date".to_string()])
        .add_header("x-served-by".to_string(), "playback".to_string())
        .body_replace("secret".to_string(), "hidden".to_string())
        .into_response_mutations();
    let mut data = ResponseData {
        status_code: 201,
        headers: headers(vec![("date", "today"), ("content-type", "text/plain")]),
        body: "a secret thing".to_string(),
    };
    run_response_mutations(&response_mutations, &mut data);
    assert_eq!(data.status_code, 201);
    assert_eq!(
        data.headers,
        headers(vec![("content-type", "text/plain"), ("x-served-by", "playback")])
    );
    assert_eq!(data.body, "a hidden thing");
}

#[test]
fn custom_kinds_can_be_added_directly() {
    let built = MutationsBuilder::new()
        .add_headers_mutation(HeadersMutationKind::Add(AddHeaderMutation::new(
            "k".to_string(),
            "v".to_string(),
        )))
        .add_body_mutation(BodyMutationKind::Replace(BodyReplaceMutation::new(
            "a".to_string(),
            "b".to_string(),
        )))
        .into_request_mutations();
    let mut data = RequestData {
        uri: "/".to_string(),
        method: "GET".to_string(),
        headers: vec![],
        body: "a".to_string(),
    };
    run_request_mutations(&built, &mut data);
    assert_eq!(data.headers, headers(vec![("k", "v")]));
    assert_eq!(data.body, "b");
}
