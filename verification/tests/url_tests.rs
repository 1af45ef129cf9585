use bored_browser::url::URIScheme;
use bored_browser::url::URL;

#[test]
fn url_parses_data_scheme() {
    let url: String = String::from("data:text/html,Hellow world!");
    let parse_url = URL::parse(&url).unwrap();

    assert_eq!(parse_url.hostname, "");
    assert_eq!(parse_url.path, "text/html,Hellow world!");
    assert_eq!(parse_url.port, "");
    assert_eq!(parse_url.scheme, URIScheme::Data);
}

#[test]
fn url_parses_file_absolute_scheme() {
    let url: String = String::from("file:///Users/test/main.rs");
    let parse_url = URL::parse(&url).unwrap();

    assert_eq!(parse_url.hostname, "");
    assert_eq!(parse_url.path, "/Users/test/main.rs");
    assert_eq!(parse_url.port, "");
    assert_eq!(parse_url.scheme, URIScheme::File);
}

#[test]
fn parses_file_relative_scheme() {
    let url: String = String::from("file://main.rs");
    let parse_url = URL::parse(&url).unwrap();

    assert_eq!(parse_url.hostname, "");
    assert_eq!(parse_url.path, "main.rs");
    assert_eq!(parse_url.port, "");
    assert_eq!(parse_url.scheme, URIScheme::File);
}

#[test]
fn url_parses_http_scheme() {
    let url: String = String::from("http://www.example.org");
    let parse_url = URL::parse(&url).unwrap();

    assert_eq!(parse_url.hostname, "www.example.org");
    assert_eq!(parse_url.path, "/");
    assert_eq!(parse_url.port, "80");
    assert_eq!(parse_url.scheme, URIScheme::HTTP);
}

#[test]
fn url_parses_http_scheme_with_path() {
    let url: String = String::from("http://www.example.org/one");
    let parse_url = URL::parse(&url).unwrap();

    assert_eq!(parse_url.hostname, "www.example.org");
    assert_eq!(parse_url.path, "/one");
    assert_eq!(parse_url.port, "80");
    assert_eq!(parse_url.scheme, URIScheme::HTTP);
}

#[test]
fn url_parses_http_scheme_with_port() {
    let url: String = String::from("http://www.example.org:9090");
    let parse_url = URL::parse(&url).unwrap();

    assert_eq!(parse_url.hostname, "www.example.org");
    assert_eq!(parse_url.path, "/");
    assert_eq!(parse_url.port, "9090");
    assert_eq!(parse_url.scheme, URIScheme::HTTP);
}

#[test]
fn url_parses_https_scheme() {
    let url: String = String::from("https://www.example.org");
    let parse_url = URL::parse(&url).unwrap();

    assert_eq!(parse_url.hostname, "www.example.org");
    assert_eq!(parse_url.path, "/");
    assert_eq!(parse_url.port, "443");
    assert_eq!(parse_url.scheme, URIScheme::HTTPS);
}

#[test]
fn url_parses_https_scheme_with_path() {
    let url: String = String::from("https://www.example.org/one");
    let parse_url = URL::parse(&url).unwrap();

    assert_eq!(parse_url.hostname, "www.example.org");
    assert_eq!(parse_url.path, "/one");
    assert_eq!(parse_url.port, "443");
    assert_eq!(parse_url.scheme, URIScheme::HTTPS);
}

#[test]
fn url_parses_https_scheme_with_port() {
    let url: String = String::from("https://www.example.org:9090");
    let parse_url = URL::parse(&url).unwrap();

    assert_eq!(parse_url.hostname, "www.example.org");
    assert_eq!(parse_url.path, "/");
    assert_eq!(parse_url.port, "9090");
    assert_eq!(parse_url.scheme, URIScheme::HTTPS);
}

#[test]
fn parses_http_view_source_scheme() {
    let url: String = String::from("view-source:http://www.example.org");
    let parse_url = URL::parse(&url).unwrap();

    assert_eq!(parse_url.hostname, "www.example.org");
    assert_eq!(parse_url.path, "/");
    assert_eq!(parse_url.port, "80");
    assert_eq!(parse_url.scheme, URIScheme::ViewSourceHTTP);
}

#[test]
fn parses_http_view_source_scheme_with_path() {
    let url: String = String::from("view-source:http://www.example.org/one");
    let parse_url = URL::parse(&url).unwrap();

    assert_eq!(parse_url.hostname, "www.example.org");
    assert_eq!(parse_url.path, "/one");
    assert_eq!(parse_url.port, "80");
    assert_eq!(parse_url.scheme, URIScheme::ViewSourceHTTP);
}

#[test]
fn parses_http_view_source_scheme_with_port() {
    let url: String = String::from("view-source:http://www.example.org:9090");
    let parse_url = URL::parse(&url).unwrap();

    assert_eq!(parse_url.hostname, "www.example.org");
    assert_eq!(parse_url.path, "/");
    assert_eq!(parse_url.port, "9090");
    assert_eq!(parse_url.scheme, URIScheme::ViewSourceHTTP);
}

#[test]
fn parses_https_view_source_scheme() {
    let url: String = String::from("view-source:https://www.example.org");
    let parse_url = URL::parse(&url).unwrap();

    assert_eq!(parse_url.hostname, "www.example.org");
    assert_eq!(parse_url.path, "/");
    assert_eq!(parse_url.port, "443");
    assert_eq!(parse_url.scheme, URIScheme::ViewSourceHTTPS);
}

#[test]
fn parses_https_view_source_scheme_with_path() {
    let url: String = String::from("view-source:https://www.example.org/one");
    let parse_url = URL::parse(&url).unwrap();

    assert_eq!(parse_url.hostname, "www.example.org");
    assert_eq!(parse_url.path, "/one");
    assert_eq!(parse_url.port, "443");
    assert_eq!(parse_url.scheme, URIScheme::ViewSourceHTTPS);
}

#[test]
fn parses_https_view_source_scheme_with_port() {
    let url: String = String::from("view-source:https://www.example.org:9090");
    let parse_url = URL::parse(&url).unwrap();

    assert_eq!(parse_url.hostname, "www.example.org");
    assert_eq!(parse_url.path, "/");
    assert_eq!(parse_url.port, "9090");
    assert_eq!(parse_url.scheme, URIScheme::ViewSourceHTTPS);
}

#[test]
fn text_without_scheme_is_an_http_locator() {
    let url = URL::parse(&String::from("www.example.org:9090/one")).unwrap();
    assert_eq!(url.scheme, URIScheme::HTTP);
    assert_eq!(url.hostname, "www.example.org");
    assert_eq!(url.port, "9090");
    assert_eq!(url.path, "/one");
    let url = URL::parse(&String::from("ftp://h/x")).unwrap();
    assert_eq!(url.scheme, URIScheme::HTTP);
    assert_eq!(url.hostname, "ftp");
    assert_eq!(url.port, "");
    assert_eq!(url.path, "//h/x");
    let url = URL::parse(&String::from("")).unwrap();
    assert_eq!(url.hostname, "");
    assert_eq!(url.port, "80");
    assert_eq!(url.path, "/");
}

#[test]
fn view_source_wraps_http_and_https_only() {
    let out = URL::parse(&String::from("view-source:file:///x"));
    assert_eq!(out.err(), Some(bored_browser::error::FetchError::MalformedIdentifier));
    let out = URL::parse(&String::from("view-source:"));
    assert_eq!(out.err(), Some(bored_browser::error::FetchError::MalformedIdentifier));
    let url = URL::parse(&String::from("view-source:http")).unwrap();
    assert_eq!(url.scheme, URIScheme::ViewSourceHTTP);
    assert_eq!(url.hostname, "");
    assert_eq!(url.path, "/");
}

#[test]
fn colons_behind_the_scheme_are_passed_over() {
    let url = URL::parse(&String::from("data::x:y")).unwrap();
    assert_eq!(url.scheme, URIScheme::Data);
    assert_eq!(url.path, "x:y");
    let url = URL::parse(&String::from("http:://h:1:2/p")).unwrap();
    assert_eq!(url.hostname, "h");
    assert_eq!(url.port, "1");
    assert_eq!(url.path, "/p");
}

#[test]
fn port_of_a_locator_is_text() {
    let url = URL::parse(&String::from("https://h:abc/x")).unwrap();
    assert_eq!(url.scheme, URIScheme::HTTPS);
    assert_eq!(url.port, "abc");
    let url = URL::parse(&String::from("https://h:/x")).unwrap();
    assert_eq!(url.port, "");
}

#[test]
fn locator_schemes_are_read() {
    assert_eq!(URIScheme::from_str("data"), URIScheme::Data);
    assert_eq!(URIScheme::from_str("file"), URIScheme::File);
    assert_eq!(URIScheme::from_str("http"), URIScheme::HTTP);
    assert_eq!(URIScheme::from_str("https"), URIScheme::HTTPS);
    assert_eq!(URIScheme::from_str("view-source:http"), URIScheme::ViewSourceHTTP);
    assert_eq!(URIScheme::from_str("view-source:https"), URIScheme::ViewSourceHTTPS);
    assert_eq!(URIScheme::from_str("view-source"), URIScheme::HTTP);
    assert_eq!(URIScheme::from_str("gopher"), URIScheme::HTTP);
}
