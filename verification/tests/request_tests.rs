use bored_browser::error::FetchError;
use bored_browser::headers::Headers;
use bored_browser::request::{HTTPMethod, HTTPRequest, HTTPResponse, Header, Request};
use bored_browser::uri::{Scheme, URI};

fn request_for(url: &str) -> HTTPRequest {
    HTTPRequest {
        url: URI::parse(&String::from(url)).unwrap(),
        http_version: String::from("1.1"),
        method: HTTPMethod::GET,
        headers: Headers::new(),
        data: String::from(""),
    }
}

fn redirect_to(location: &str) -> HTTPResponse {
    let mut headers = Headers::new();
    headers.insert(String::from(Header::Location.as_str()), String::from(location));
    HTTPResponse {
        http_version: String::from("1.1"),
        status_code: 301,
        status_message: String::new(),
        headers,
        data: String::from(""),
    }
}

#[test]
fn absolute_url_get_redirected_correctly() {
    let request = HTTPRequest {
        url: URI::parse(&String::from("http://www.example.org/this_is_a_redirect")).unwrap(),
        http_version: String::from("1.1"),
        method: HTTPMethod::GET,
        headers: Headers::new(),
        data: String::from(""),
    };

    let redirect_url_string = String::from("http://www.example.org/redirected");

    let redirect_url = URI::parse(&redirect_url_string).unwrap();

    let mut headers = Headers::new();
    headers.insert(String::from(Header::Location.as_str()), redirect_url_string.clone());
    let response = HTTPResponse {
        http_version: String::from("1.1"),
        status_code: 301,
        status_message: String::new(),
        headers,
        data: String::from(""),
    };

    let new_request = Request::build_request_from_redirect_response(request, &response).unwrap();

    assert_eq!(
        redirect_url.authority.as_ref().expect("No authority").host,
        new_request.url.authority.as_ref().expect("No authority").host
    );
    assert_eq!(redirect_url.path, new_request.url.path);
    assert_eq!(
        redirect_url.authority.as_ref().expect("No authority").port,
        new_request.url.authority.as_ref().expect("No authority").port
    );
    assert_eq!(redirect_url.scheme, new_request.url.scheme);
}

#[test]
fn relative_url_get_redirected_correctly() {
    let request = HTTPRequest {
        url: URI::parse(&String::from("http://www.example.org/this_is_a_redirect")).unwrap(),
        http_version: String::from("1.1"),
        method: HTTPMethod::GET,
        headers: Headers::new(),
        data: String::from(""),
    };

    let redirect_url_string = String::from("http://www.example.org/redirected");

    let redirect_url = URI::parse(&redirect_url_string).unwrap();

    let mut headers = Headers::new();
    headers.insert(String::from(Header::Location.as_str()), String::from("/redirected"));
    let response = HTTPResponse {
        http_version: String::from("1.1"),
        status_code: 301,
        status_message: String::new(),
        headers,
        data: String::from(""),
    };

    let new_request = Request::build_request_from_redirect_response(request, &response).unwrap();

    let authority = redirect_url.authority.unwrap();
    let new_request_authority = new_request.url.authority.unwrap();

    assert_eq!(authority.host, new_request_authority.host);
    assert_eq!(redirect_url.path, new_request.url.path);
    assert_eq!(authority.port, new_request_authority.port);
    assert_eq!(redirect_url.scheme, new_request.url.scheme);
}

#[test]
fn relative_url_get_redirected_correctly_with_deep_path() {
    let request = HTTPRequest {
        url: URI::parse(&String::from(
            "http://www.example.org/deep/path/this_is_a_redirect",
        ))
        .unwrap(),
        http_version: String::from("1.1"),
        method: HTTPMethod::GET,
        headers: Headers::new(),
        data: String::from(""),
    };

    let redirect_url_string = String::from("http://www.example.org/deep/path/redirected");

    let redirect_url = URI::parse(&redirect_url_string).unwrap();

    let mut headers = Headers::new();
    headers.insert(String::from(Header::Location.as_str()), String::from("/redirected"));
    let response = HTTPResponse {
        http_version: String::from("1.1"),
        status_code: 301,
        status_message: String::new(),
        headers,
        data: String::from(""),
    };

    let new_request = Request::build_request_from_redirect_response(request, &response).unwrap();

    let authority = redirect_url.authority.unwrap();
    let new_request_authority = new_request.url.authority.unwrap();

    assert_eq!(authority.host, new_request_authority.host);
    assert_eq!(redirect_url.path, new_request.url.path);
    assert_eq!(authority.port, new_request_authority.port);
    assert_eq!(redirect_url.scheme, new_request.url.scheme);
}

#[test]
fn absolute_redirect_replaces_scheme_and_host() {
    let request = request_for("https://www.example.org:8443/a/b");
    let next =
        Request::build_request_from_redirect_response(request, &redirect_to("http://other/y"))
            .unwrap();
    let authority = next.url.authority.unwrap();
    assert_eq!(authority.host, "other");
    assert_eq!(authority.port, 80);
    assert_eq!(next.url.path, "/y");
    assert_eq!(next.url.scheme, Scheme::HTTP);
}

#[test]
fn relative_redirect_follows_the_directory() {
    let request = request_for("http://h/a/b/c");
    let next =
        Request::build_request_from_redirect_response(request, &redirect_to("/y")).unwrap();
    assert_eq!(next.url.path, "/a/b/y");
    assert_eq!(next.url.authority.unwrap().host, "h");
}

#[test]
fn relative_redirect_against_empty_path() {
    let mut request = request_for("http://h/");
    request.url.path = String::new();
    let next =
        Request::build_request_from_redirect_response(request, &redirect_to("y/z")).unwrap();
    assert_eq!(next.url.path, "y/z");
}

#[test]
fn relative_redirect_against_path_without_slash() {
    let mut request = request_for("http://h/");
    request.url.path = String::from("abc");
    let next =
        Request::build_request_from_redirect_response(request, &redirect_to("/y")).unwrap();
    assert_eq!(next.url.path, "/y");
}

#[test]
fn redirect_without_location_fails() {
    let request = request_for("http://h/a");
    let response = HTTPResponse {
        http_version: String::from("1.1"),
        status_code: 302,
        status_message: String::new(),
        headers: Headers::new(),
        data: String::new(),
    };
    let out = Request::build_request_from_redirect_response(request, &response);
    assert_eq!(out.err(), Some(FetchError::MissingLocation));
}

#[test]
fn redirect_to_malformed_location_fails() {
    let request = request_for("http://h/a");
    let out = Request::build_request_from_redirect_response(request, &redirect_to("httpx"));
    assert_eq!(out.err(), Some(FetchError::MalformedIdentifier));
}

#[test]
fn location_is_found_whatever_its_case() {
    let request = request_for("http://h/a/b");
    let mut headers = Headers::new();
    headers.insert(String::from("location"), String::from("/c"));
    let response = HTTPResponse {
        http_version: String::from("1.1"),
        status_code: 301,
        status_message: String::new(),
        headers,
        data: String::new(),
    };
    let next = Request::build_request_from_redirect_response(request, &response).unwrap();
    assert_eq!(next.url.path, "/a/c");
}

#[test]
fn request_is_built_with_default_headers() {
    let request = request_for("http://www.example.org/one");
    assert_eq!(
        request.build(),
        "GET /one HTTP/1.1\r\nHost: www.example.org\r\nConnection: close\r\nUser-Agent: Bored Browser\r\nAccept-Encoding: gzip\r\n\r\n\r\n"
    );
}

#[test]
fn request_headers_override_the_defaults() {
    let mut request = request_for("http://www.example.org/one");
    request.headers.insert(String::from("connection"), String::from("keep-alive"));
    request.headers.insert(String::from("X-Trace"), String::from("1"));
    assert_eq!(
        request.build(),
        "GET /one HTTP/1.1\r\nHost: www.example.org\r\nconnection: keep-alive\r\nUser-Agent: Bored Browser\r\nAccept-Encoding: gzip\r\nX-Trace: 1\r\n\r\n\r\n"
    );
}

#[test]
fn default_headers_name_the_host() {
    let url = URI::parse(&String::from("https://h:8443/x")).unwrap();
    let headers = Request::build_default_headers(&url);
    assert_eq!(headers.len(), 4);
    assert_eq!(headers.get("Host"), Some(&String::from("h")));
    assert_eq!(headers.get("Connection"), Some(&String::from("close")));
    assert_eq!(headers.get("User-Agent"), Some(&String::from("Bored Browser")));
    assert_eq!(headers.get("Accept-Encoding"), Some(&String::from("gzip")));
}

#[test]
fn default_headers_without_authority_have_no_host() {
    let url = URI::parse(&String::from("data:x")).unwrap();
    let headers = Request::build_default_headers(&url);
    assert_eq!(headers.len(), 3);
    assert_eq!(headers.get("Host"), None);
}

#[test]
fn methods_and_headers_are_written_and_read() {
    assert_eq!(HTTPMethod::GET.as_str(), "GET");
    assert_eq!(HTTPMethod::OPTIONS.as_str(), "OPTIONS");
    assert_eq!(HTTPMethod::from_str("DELETE"), Some(HTTPMethod::DELETE));
    assert_eq!(HTTPMethod::from_str("get"), None);
    assert_eq!(Header::TransferEncoding.as_str(), "Transfer-Encoding");
    assert_eq!(Header::from_str("content-ENCODING"), Some(Header::ContentEncoding));
    assert_eq!(Header::from_str("Cookie"), None);
}
