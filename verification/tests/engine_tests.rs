//! Engine behaviour: playback order, record capture and persistence, the
//! diff guard, state isolation between tests, and the end-of-test decision.

use servirtium::error::Error;
use servirtium::markdown::error::{
    Error as MdError, MarkdownsDifferenceLocation, MarkdownsDifferenceType,
};
use servirtium::servirtium_server::{extract_uri_host, prepare_for_test};
use servirtium::test_session::{after_test_plan, AfterTestPlan};
use servirtium::{
    InteractionData, MarkdownInteractionManager, MutationsBuilder, RequestData, ResponseData,
    ServirtiumConfiguration, ServirtiumMode, ServirtiumServer,
};

fn request(method: &str, uri: &str) -> RequestData {
    RequestData {
        uri: uri.to_string(),
        method: method.to_string(),
        headers: vec![("accept".to_string(), "*/*".to_string())],
        body: String::new(),
    }
}

fn response(status: u16, content_type: &str, body: &str) -> ResponseData {
    ResponseData {
        status_code: status,
        headers: vec![("content-type".to_string(), content_type.to_string())],
        body: body.to_string(),
    }
}

fn playback_config(path: &str) -> ServirtiumConfiguration {
    ServirtiumConfiguration::new(
        ServirtiumMode::Playback,
        MarkdownInteractionManager::new(path.to_string()),
    )
}

fn record_config(path: &str, domain: &str) -> ServirtiumConfiguration {
    let mut config = ServirtiumConfiguration::new(
        ServirtiumMode::Record,
        MarkdownInteractionManager::new(path.to_string()),
    );
    config.set_domain_name(domain.to_string());
    config
}

fn file_with(interactions: &Vec<InteractionData>) -> String {
    MarkdownInteractionManager::new("f.md".to_string()).save_interactions(interactions)
}

#[test]
fn playback_serves_the_recorded_response() {
    let mut recorded = response(200, "text/plain", "hello");
    recorded
        .headers
        .push(("transfer-encoding".to_string(), "chunked".to_string()));
    let data = vec![InteractionData {
        interaction_number: 0,
        request_data: request("GET", "/x"),
        response_data: recorded,
    }];
    let text = file_with(&data);
    let mut server = ServirtiumServer::new();
    server.install_configuration(playback_config("f.md"));
    assert!(server.needs_markdown_data());
    let loaded = playback_config("f.md").interaction_manager().load_interactions(&text).unwrap();
    server.install_markdown_data(loaded);
    let served = server.handle_playback().unwrap();
    assert_eq!(served.status_code, 200);
    assert_eq!(served.body, "hello");
    assert!(served
        .headers
        .iter()
        .all(|(name, _)| name != "transfer-encoding"));
    assert!(served.headers.iter().any(|(name, _)| name == "content-type"));
}

#[test]
fn playback_serves_interactions_in_file_order_and_fails_past_the_end() {
    let data = vec![
        InteractionData {
            interaction_number: 0,
            request_data: request("GET", "/seq"),
            response_data: response(200, "text/plain", "A"),
        },
        InteractionData {
            interaction_number: 1,
            request_data: request("GET", "/seq"),
            response_data: response(200, "text/plain", "B"),
        },
    ];
    let text = file_with(&data);
    let mut server = ServirtiumServer::new();
    server.install_configuration(playback_config("f.md"));
    let loaded = playback_config("f.md").interaction_manager().load_interactions(&text).unwrap();
    server.install_markdown_data(loaded);
    assert_eq!(server.handle_playback().unwrap().body, "A");
    assert_eq!(server.handle_playback().unwrap().body, "B");
    let err = server.handle_playback().unwrap_err();
    assert!(matches!(err, Error::PlaybackOverflow));
    // the handler latches it; after the test the latched error is surfaced
    server.set_error(err);
    let latched = server.take_error().unwrap();
    let plan = after_test_plan(Some(latched), ServirtiumMode::Playback, false);
    assert!(matches!(plan, AfterTestPlan::ReportError(Error::PlaybackOverflow)));
}

#[test]
fn playback_without_a_loaded_conversation_reports_not_loaded() {
    let mut server = ServirtiumServer::new();
    server.install_configuration(playback_config("f.md"));
    assert!(matches!(server.handle_playback().unwrap_err(), Error::NotLoaded));
}

#[test]
fn a_request_without_a_configuration_reports_not_configured() {
    let mut server = ServirtiumServer::new();
    assert!(matches!(server.handle_playback().unwrap_err(), Error::NotConfigured));
    let err = server
        .handle_record_prepare(request("GET", "/x"))
        .unwrap_err();
    assert!(matches!(err, Error::NotConfigured));
}

#[test]
fn record_prepare_sets_the_host_header_from_the_upstream_domain() {
    let mut server = ServirtiumServer::new();
    server.install_configuration(record_config("f.md", "http://example.test"));
    let prepared = server.handle_record_prepare(request("GET", "/ping")).unwrap();
    assert!(prepared
        .headers
        .iter()
        .any(|(name, value)| name == "host" && value == "example.test"));
    assert_eq!(prepared.uri, "/ping");
}

#[test]
fn record_without_an_upstream_domain_reports_not_configured() {
    let mut server = ServirtiumServer::new();
    server.install_configuration(playback_config("f.md"));
    // a Playback configuration has no domain; Record-mode preparation refuses it
    let err = server
        .handle_record_prepare(request("GET", "/x"))
        .unwrap_err();
    assert!(matches!(err, Error::NotConfigured));
}

#[test]
fn a_domain_with_no_host_reports_invalid_domain_name() {
    let mut server = ServirtiumServer::new();
    server.install_configuration(record_config("f.md", "http://"));
    let err = server
        .handle_record_prepare(request("GET", "/x"))
        .unwrap_err();
    assert!(matches!(err, Error::InvalidDomainName));
}

#[test]
fn host_extraction_handles_schemes_ports_and_userinfo() {
    assert_eq!(extract_uri_host("http://example.test"), Some("example.test".to_string()));
    assert_eq!(
        extract_uri_host("https://example.test:8443/path?q=1"),
        Some("example.test".to_string())
    );
    assert_eq!(extract_uri_host("example.test/path"), Some("example.test".to_string()));
    assert_eq!(
        extract_uri_host("http://user@example.test:80/"),
        Some("example.test".to_string())
    );
    assert_eq!(extract_uri_host("http://"), None);
    assert_eq!(extract_uri_host(""), None);
}

#[test]
fn record_captures_and_persists_exactly_what_came_back() {
    let mut server = ServirtiumServer::new();
    server.install_configuration(record_config("f.md", "http://example.test"));
    let prepared = server.handle_record_prepare(request("GET", "/ping")).unwrap();
    let served = server
        .handle_record_complete(prepared, response(200, "text/plain", "pong"))
        .unwrap();
    assert_eq!(served.status_code, 200);
    assert_eq!(served.body, "pong");
    assert_eq!(server.interactions().len(), 1);
    let plan = after_test_plan(None, ServirtiumMode::Record, false);
    assert!(matches!(plan, AfterTestPlan::Save));
    let text = file_with(server.interactions());
    assert!(text.starts_with("## Interaction 0: GET /ping\r\n"));
    assert!(text.contains("### Response body recorded for playback (200: text/plain):"));
    assert!(text.contains("\r\npong\r\n"));
    let reloaded = MarkdownInteractionManager::new("f.md".to_string())
        .load_interactions(&text)
        .unwrap();
    assert_eq!(reloaded.len(), 1);
    assert_eq!(reloaded[0].response_data.body, "pong");
}

#[test]
fn recording_n_requests_persists_n_interactions_with_ascending_ordinals() {
    let mut server = ServirtiumServer::new();
    server.install_configuration(record_config("f.md", "http://example.test"));
    for k in 0..3u16 {
        let prepared = server
            .handle_record_prepare(request("GET", "/item"))
            .unwrap();
        server
            .handle_record_complete(prepared, response(200, "text/plain", &format!("v{}", k)))
            .unwrap();
    }
    assert_eq!(server.interaction_number(), 3);
    let text = file_with(server.interactions());
    let reloaded = MarkdownInteractionManager::new("f.md".to_string())
        .load_interactions(&text)
        .unwrap();
    assert_eq!(reloaded.len(), 3);
    for k in 0..3usize {
        assert_eq!(reloaded[k].interaction_number as usize, k);
        assert_eq!(reloaded[k].response_data.body, format!("v{}", k));
    }
}

#[test]
fn the_diff_guard_reports_a_changed_upstream_body() {
    // the conversation on disk recorded pong; the upstream now answers pang
    let recorded = vec![InteractionData {
        interaction_number: 0,
        request_data: request("GET", "/ping"),
        response_data: response(200, "text/plain", "pong"),
    }];
    let on_disk = file_with(&recorded);
    let mut server = ServirtiumServer::new();
    let mut config = record_config("f.md", "http://example.test");
    config.set_fail_if_markdown_changed(true);
    assert!(config.fail_if_markdown_changed());
    server.install_configuration(config);
    let prepared = server.handle_record_prepare(request("GET", "/ping")).unwrap();
    server
        .handle_record_complete(prepared, response(200, "text/plain", "pang"))
        .unwrap();
    let plan = after_test_plan(None, ServirtiumMode::Record, true);
    assert!(matches!(plan, AfterTestPlan::CompareThenSave));
    let manager = MarkdownInteractionManager::new("f.md".to_string());
    let err = manager
        .check_data_unchanged(&on_disk, server.interactions())
        .unwrap_err();
    match err {
        MdError::MarkdownsDiffer(MarkdownsDifferenceType::Body(d), loc) => {
            assert!(matches!(loc, MarkdownsDifferenceLocation::Response));
            assert_eq!(d.line, 1);
            assert_eq!(d.column, 2);
            assert_eq!(d.old_context, "pong");
            assert_eq!(d.new_context, "pang");
        }
        other => panic!("wrong difference: {:?}", other),
    }
}

#[test]
fn record_mutations_rewrite_the_file_and_the_served_response_independently() {
    let mut server = ServirtiumServer::new();
    let mut config = record_config("f.md", "http://example.test");
    config.add_record_response_mutations(
        MutationsBuilder::new().remove_headers(vec!["Date".to_string()]),
    );
    config.add_playback_response_mutations(
        MutationsBuilder::new().body_replace("TOKEN".to_string(), "REDACTED".to_string()),
    );
    server.install_configuration(config);
    let prepared = server.handle_record_prepare(request("GET", "/login")).unwrap();
    let mut upstream = response(200, "text/plain", "your key is TOKEN");
    upstream
        .headers
        .push(("date".to_string(), "Mon, 01 Jan".to_string()));
    let served = server.handle_record_complete(prepared, upstream).unwrap();
    // the response the test sees has the playback substitution
    assert_eq!(served.body, "your key is REDACTED");
    // the persisted file lost the date header but kept the real body
    let text = file_with(server.interactions());
    assert!(!text.contains("date:"));
    assert!(text.contains("your key is TOKEN"));
    assert!(!text.contains("REDACTED"));
}

#[test]
fn playback_of_a_domain_error_body_is_not_an_engine_error() {
    let data = vec![InteractionData {
        interaction_number: 0,
        request_data: request("GET", "/country/xyz"),
        response_data: response(200, "text/plain", "Invalid country code: xyz"),
    }];
    let text = file_with(&data);
    let mut server = ServirtiumServer::new();
    server.install_configuration(playback_config("f.md"));
    let loaded = playback_config("f.md").interaction_manager().load_interactions(&text).unwrap();
    server.install_markdown_data(loaded);
    let served = server.handle_playback().unwrap();
    assert!(served.body.starts_with("Invalid country code"));
    assert!(server.take_error().is_none());
}

#[test]
fn a_new_test_starts_with_clean_session_state() {
    let mut server = ServirtiumServer::new();
    server.install_configuration(record_config("f.md", "http://example.test"));
    let prepared = server.handle_record_prepare(request("GET", "/x")).unwrap();
    server
        .handle_record_complete(prepared, response(200, "text/plain", "r"))
        .unwrap();
    server.set_error(Error::InvalidBody);
    assert_eq!(server.interactions().len(), 1);
    // the next before-test installs a configuration over a clean slate
    server.install_configuration(playback_config("g.md"));
    assert_eq!(server.interactions().len(), 0);
    assert_eq!(server.interaction_number(), 0);
    assert!(server.needs_markdown_data());
    assert!(server.take_error().is_none());
    // and a full reset clears the configuration too
    server.reset();
    assert!(server.configuration().is_none());
}

#[test]
fn the_first_latched_error_wins() {
    let mut server = ServirtiumServer::new();
    server.set_error(Error::InvalidBody);
    server.set_error(Error::NotConfigured);
    assert!(matches!(server.take_error(), Some(Error::InvalidBody)));
    assert!(server.take_error().is_none());
}

#[test]
fn the_end_of_test_decision_follows_mode_and_flags() {
    assert!(matches!(
        after_test_plan(None, ServirtiumMode::Playback, true),
        AfterTestPlan::Nothing
    ));
    assert!(matches!(
        after_test_plan(None, ServirtiumMode::Record, false),
        AfterTestPlan::Save
    ));
    assert!(matches!(
        after_test_plan(None, ServirtiumMode::Record, true),
        AfterTestPlan::CompareThenSave
    ));
    assert!(matches!(
        after_test_plan(Some(Error::NotLoaded), ServirtiumMode::Record, true),
        AfterTestPlan::ReportError(Error::NotLoaded)
    ));
}

#[test]
fn prepare_for_test_builds_a_complete_configuration() {
    let config = prepare_for_test(
        ServirtiumMode::Record,
        "scripts/one.md".to_string(),
        "http://example.test".to_string(),
    );
    assert!(matches!(config.interaction_mode(), ServirtiumMode::Record));
    assert_eq!(config.domain_name().unwrap(), "http://example.test");
    assert_eq!(config.interaction_manager().path().as_str(), "scripts/one.md");
    assert!(!config.fail_if_markdown_changed());
}

#[test]
fn error_reports_read_as_their_messages() {
    assert_eq!(Error::NotConfigured.message(), "The server hasn't been configured");
    assert_eq!(
        Error::InteractionManager(MdError::InvalidMarkdownFormat).message(),
        "Markdown manager error: Markdown format is invalid"
    );
    assert_eq!(Error::Io("boom".to_string()).message(), "IoError: boom");
}
