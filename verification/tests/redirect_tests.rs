use bored_browser::error::FetchError;
use bored_browser::headers::Headers;
use bored_browser::redirect::{Endpoint, Resolution, Transport, MAX_ATTEMPTS};
use bored_browser::request::{HTTPRequest, HTTPResponse};
use bored_browser::uri::URI;

fn moved(location: &str) -> HTTPResponse {
    let mut headers = Headers::new();
    headers.insert(String::from("Location"), String::from(location));
    HTTPResponse {
        http_version: String::from("1.1"),
        status_code: 301,
        status_message: String::from("Moved"),
        headers,
        data: String::new(),
    }
}

fn answer(status_code: u16, data: &str) -> HTTPResponse {
    HTTPResponse {
        http_version: String::from("1.1"),
        status_code,
        status_message: String::from("OK"),
        headers: Headers::new(),
        data: String::from(data),
    }
}

fn start(url: &str) -> Resolution {
    Resolution::start(&URI::parse(&String::from(url)).unwrap())
}

#[test]
fn six_redirects_are_too_many() {
    let mut state = start("http://h/a");
    for i in 0..6 {
        state = state.feed(moved(&format!("/r{}", i)));
    }
    assert!(matches!(state, Resolution::Failed(FetchError::TooManyRedirects)));
}

#[test]
fn six_redirects_fed_at_once_are_too_many() {
    let responses = vec![
        moved("http://a/1"),
        moved("http://b/2"),
        moved("/3"),
        moved("https://c/4"),
        moved("/5"),
        moved("/6"),
    ];
    let state = start("http://h/a").feed_all(responses);
    assert!(matches!(state, Resolution::Failed(FetchError::TooManyRedirects)));
}

#[test]
fn the_fifth_redirect_ends_the_fetch() {
    assert_eq!(MAX_ATTEMPTS, 5);
    let mut state = start("http://h/a");
    for attempt in 1..5 {
        match &state {
            Resolution::Fetching { attempt: number, .. } => assert_eq!(*number, attempt),
            _ => panic!("the fetch ended early"),
        }
        state = state.feed(moved("/next"));
    }
    match &state {
        Resolution::Fetching { request, attempt } => {
            assert_eq!(*attempt, 5);
            assert_eq!(request.url.path, "/next");
        }
        _ => panic!("the fetch ended early"),
    }
    state = state.feed(moved("/next"));
    assert!(matches!(state, Resolution::Failed(FetchError::TooManyRedirects)));
}

#[test]
fn four_redirects_and_an_answer_end_well() {
    let mut state = start("http://h/a/b");
    state = state.feed(moved("/c"));
    state = state.feed(moved("http://other:8080/d/e"));
    state = state.feed(moved("/f"));
    state = state.feed(moved("/g"));
    match &state {
        Resolution::Fetching { request, attempt } => {
            assert_eq!(*attempt, 5);
            assert_eq!(request.url.path, "/d/g");
            let authority = request.url.authority.as_ref().unwrap();
            assert_eq!(authority.host, "other");
            assert_eq!(authority.port, 8080);
        }
        _ => panic!("the fetch ended early"),
    }
    state = state.feed(answer(200, "done"));
    match state {
        Resolution::Terminal(response) => assert_eq!(response.data, "done"),
        _ => panic!("the fetch did not end"),
    }
}

#[test]
fn redirect_statuses_run_from_300_to_399() {
    assert!(matches!(start("http://h/").feed(answer(299, "")), Resolution::Terminal(_)));
    assert!(matches!(start("http://h/").feed(answer(400, "")), Resolution::Terminal(_)));
    assert!(matches!(
        start("http://h/").feed(answer(300, "")),
        Resolution::Failed(FetchError::MissingLocation)
    ));
    assert!(matches!(
        start("http://h/").feed(answer(399, "")),
        Resolution::Failed(FetchError::MissingLocation)
    ));
}

#[test]
fn an_ended_fetch_stays_as_it_is() {
    let state = start("http://h/").feed(answer(200, "first")).feed(answer(200, "second"));
    match state {
        Resolution::Terminal(response) => assert_eq!(response.data, "first"),
        _ => panic!("the fetch did not end"),
    }
    let state = start("http://h/").feed(answer(301, "")).feed(answer(200, "late"));
    assert!(matches!(state, Resolution::Failed(FetchError::MissingLocation)));
}

#[test]
fn bytes_are_read_and_fed() {
    let state = start("http://h/a");
    let state = state.receive(&b"HTTP/1.1 302 Found\r\nLocation: /b\r\n\r\n".to_vec());
    match &state {
        Resolution::Fetching { request, attempt } => {
            assert_eq!(*attempt, 2);
            assert_eq!(request.url.path, "/b");
        }
        _ => panic!("the fetch ended early"),
    }
    let state = state.receive(&b"HTTP/1.1 200 OK\r\n\r\nbody".to_vec());
    match state {
        Resolution::Terminal(response) => assert_eq!(response.data, "body"),
        _ => panic!("the fetch did not end"),
    }
    let state = start("http://h/a").receive(&b"garbage".to_vec());
    assert!(matches!(state, Resolution::Failed(FetchError::ProtocolViolation)));
}

#[test]
fn endpoint_follows_the_scheme() {
    let request = HTTPRequest::get(&URI::parse(&String::from("https://h/x")).unwrap());
    let endpoint = Endpoint::of(&request).unwrap();
    assert_eq!(endpoint.transport, Transport::Encrypted);
    assert_eq!(endpoint.address(), "h:443");
    let request = HTTPRequest::get(&URI::parse(&String::from("http://h:8080/x")).unwrap());
    let endpoint = Endpoint::of(&request).unwrap();
    assert_eq!(endpoint.transport, Transport::Plain);
    assert_eq!(endpoint.address(), "h:8080");
    let request = HTTPRequest::get(&URI::parse(&String::from("file:///x")).unwrap());
    assert!(Endpoint::of(&request).is_none());
}
