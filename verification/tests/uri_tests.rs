use bored_browser::uri::Scheme;
use bored_browser::uri::URI;

#[test]
fn uri_parses_data_scheme() {
    let url: String = String::from("data:text/html,Hellow world!");
    let parse_url = URI::parse(&url).unwrap();

    assert!(parse_url.authority.is_none());
    assert_eq!(parse_url.path, "text/html,Hellow world!");
    assert_eq!(parse_url.scheme, Scheme::Data);
}

#[test]
fn uri_parses_file_absolute_scheme() {
    let url: String = String::from("file:///Users/test/main.rs");
    let parse_url = URI::parse(&url).unwrap();

    assert!(parse_url.authority.is_none());
    assert_eq!(parse_url.path, "/Users/test/main.rs");
    assert_eq!(parse_url.scheme, Scheme::File);
}

#[test]
fn uri_parses_http_scheme() {
    let url: String = String::from("http://www.example.org");
    let parse_url = URI::parse(&url).unwrap();

    let authority = parse_url.authority.unwrap();

    assert_eq!(authority.host, "www.example.org");
    assert_eq!(parse_url.path, "/");
    assert_eq!(authority.port, 80);
    assert_eq!(parse_url.scheme, Scheme::HTTP);
}

#[test]
fn uri_parses_http_scheme_with_path() {
    let url: String = String::from("http://www.example.org/one");
    let parse_url = URI::parse(&url).unwrap();

    let authority = parse_url.authority.unwrap();

    assert_eq!(authority.host, "www.example.org");
    assert_eq!(parse_url.path, "/one");
    assert_eq!(authority.port, 80);
    assert_eq!(parse_url.scheme, Scheme::HTTP);
}

#[test]
fn uri_parses_http_scheme_with_port() {
    let url: String = String::from("http://www.example.org:9090");
    let parse_url = URI::parse(&url).unwrap();

    let authority = parse_url.authority.unwrap();

    assert_eq!(authority.host, "www.example.org");
    assert_eq!(parse_url.path, "/");
    assert_eq!(authority.port, 9090);
    assert_eq!(parse_url.scheme, Scheme::HTTP);
}

#[test]
fn uri_parses_https_scheme() {
    let url: String = String::from("https://www.example.org");
    let parse_url = URI::parse(&url).unwrap();

    let authority = parse_url.authority.unwrap();

    assert_eq!(authority.host, "www.example.org");
    assert_eq!(parse_url.path, "/");
    assert_eq!(authority.port, 443);
    assert_eq!(parse_url.scheme, Scheme::HTTPS);
}

#[test]
fn uri_parses_https_scheme_with_path() {
    let url: String = String::from("https://www.example.org/one");
    let parse_url = URI::parse(&url).unwrap();

    let authority = parse_url.authority.unwrap();

    assert_eq!(authority.host, "www.example.org");
    assert_eq!(parse_url.path, "/one");
    assert_eq!(authority.port, 443);
    assert_eq!(parse_url.scheme, Scheme::HTTPS);
}

#[test]
fn uri_parses_https_scheme_with_port() {
    let url: String = String::from("https://www.example.org:9090");
    let parse_url = URI::parse(&url).unwrap();

    let authority = parse_url.authority.unwrap();

    assert_eq!(authority.host, "www.example.org");
    assert_eq!(parse_url.path, "/");
    assert_eq!(authority.port, 9090);
    assert_eq!(parse_url.scheme, Scheme::HTTPS);
}

#[test]
fn parses_viewsource_and_http_scheme() {
    let url: String = String::from("view-source:http://www.example.org");
    let parse_url = URI::parse(&url).unwrap();

    let authority = parse_url.authority.unwrap();

    assert_eq!(authority.host, "www.example.org");
    assert_eq!(parse_url.path, "/");
    assert_eq!(authority.port, 80);
    assert_eq!(parse_url.scheme, Scheme::HTTP);
    assert_eq!(parse_url.flags.get("view-source"), Some(&true))
}

#[test]
fn parses_viewsource_and_https_scheme() {
    let url: String = String::from("view-source:https://www.example.org");
    let parse_url = URI::parse(&url).unwrap();

    let authority = parse_url.authority.unwrap();

    assert_eq!(authority.host, "www.example.org");
    assert_eq!(parse_url.path, "/");
    assert_eq!(authority.port, 443);
    assert_eq!(parse_url.scheme, Scheme::HTTPS);
    assert_eq!(parse_url.flags.get("view-source"), Some(&true))
}

#[test]
fn viewsource_is_not_a_flag_if_not_the_scheme() {
    let url: String = String::from("https://www.example.org");
    let parse_url = URI::parse(&url).unwrap();

    let authority = parse_url.authority.unwrap();

    assert_eq!(authority.host, "www.example.org");
    assert_eq!(parse_url.path, "/");
    assert_eq!(authority.port, 443);
    assert_eq!(parse_url.scheme, Scheme::HTTPS);
    assert_eq!(parse_url.flags.get("view-source"), None)
}

#[test]
fn trailing_slash_makes_no_difference() {
    let bare = URI::parse(&String::from("http://h")).unwrap();
    let slashed = URI::parse(&String::from("http://h/")).unwrap();
    assert_eq!(bare.path, "/");
    assert_eq!(slashed.path, "/");
    assert_eq!(bare.authority.unwrap().host, slashed.authority.unwrap().host);
}

#[test]
fn explicit_port_and_path_are_read() {
    let uri = URI::parse(&String::from("http://h:9090/x")).unwrap();
    let authority = uri.authority.unwrap();
    assert_eq!(authority.host, "h");
    assert_eq!(authority.port, 9090);
    assert!(authority.userinfo.is_none());
    assert_eq!(uri.path, "/x");
}

#[test]
fn view_source_keeps_what_it_wraps() {
    let plain = URI::parse(&String::from("https://h/x")).unwrap();
    let wrapped = URI::parse(&String::from("view-source:https://h/x")).unwrap();
    assert_eq!(wrapped.scheme, plain.scheme);
    assert_eq!(wrapped.path, plain.path);
    let plain_authority = plain.authority.unwrap();
    let wrapped_authority = wrapped.authority.unwrap();
    assert_eq!(wrapped_authority.host, plain_authority.host);
    assert_eq!(wrapped_authority.port, plain_authority.port);
    assert_eq!(wrapped.flags.get("view-source"), Some(&true));
    assert!(wrapped.flags.contains("view-source"));
    assert_eq!(plain.flags.get("view-source"), None);
    assert!(!plain.flags.contains("view-source"));
}

#[test]
fn view_source_wraps_other_schemes_too() {
    let uri = URI::parse(&String::from("view-source:file:///x")).unwrap();
    assert_eq!(uri.scheme, Scheme::File);
    assert!(uri.authority.is_none());
    assert_eq!(uri.path, "/x");
    assert_eq!(uri.flags.get("view-source"), Some(&true));
    let uri = URI::parse(&String::from("view-source:view-source:http://h")).unwrap();
    assert_eq!(uri.scheme, Scheme::HTTP);
    assert_eq!(uri.flags.get("view-source"), Some(&true));
    let uri = URI::parse(&String::from("view-source:data:view-source")).unwrap();
    assert_eq!(uri.scheme, Scheme::Data);
    assert_eq!(uri.path, "view-source");
}

#[test]
fn malformed_identifiers_are_refused() {
    for text in [
        "",
        "no colon",
        ":x",
        "ftp://h/",
        "HTTP://h/",
        " http://h/",
        "http",
        "view-source",
        "view-source:nothing",
        "view-source:ftp://h/",
        "http://h:abc/",
        "http://h:/x",
        "http://h:+80/",
        "http://h:65536/",
        "http://h:8 0/",
        "https://h::80/",
    ] {
        let out = URI::parse(&String::from(text));
        assert_eq!(out.err(), Some(bored_browser::error::FetchError::MalformedIdentifier));
    }
}

#[test]
fn port_ends_at_the_second_colon() {
    let uri = URI::parse(&String::from("http://h:80:90/x")).unwrap();
    let authority = uri.authority.unwrap();
    assert_eq!(authority.host, "h");
    assert_eq!(authority.port, 80);
    assert_eq!(uri.path, "/x");
    let uri = URI::parse(&String::from("https://h:65535")).unwrap();
    assert_eq!(uri.authority.unwrap().port, 65535);
    let uri = URI::parse(&String::from("https://h:00080")).unwrap();
    assert_eq!(uri.authority.unwrap().port, 80);
}

#[test]
fn slashes_after_the_scheme_are_optional() {
    let uri = URI::parse(&String::from("http:h/x/y")).unwrap();
    assert_eq!(uri.authority.unwrap().host, "h");
    assert_eq!(uri.path, "/x/y");
    let uri = URI::parse(&String::from("http://")).unwrap();
    assert_eq!(uri.authority.unwrap().host, "");
    assert_eq!(uri.path, "/");
    let uri = URI::parse(&String::from("http:///x")).unwrap();
    assert_eq!(uri.authority.unwrap().host, "");
    assert_eq!(uri.path, "/x");
    let uri = URI::parse(&String::from("file:main.rs")).unwrap();
    assert_eq!(uri.path, "main.rs");
    let uri = URI::parse(&String::from("file://main.rs")).unwrap();
    assert_eq!(uri.path, "main.rs");
}

#[test]
fn data_payload_is_kept_verbatim() {
    let uri = URI::parse(&String::from("data://a:b/c\nd")).unwrap();
    assert_eq!(uri.scheme, Scheme::Data);
    assert!(uri.authority.is_none());
    assert_eq!(uri.path, "//a:b/c\nd");
    let uri = URI::parse(&String::from("data:")).unwrap();
    assert_eq!(uri.path, "");
}

#[test]
fn host_is_all_that_stands_before_port_and_path() {
    let uri = URI::parse(&String::from("http://user@b\u{fc}cher.example/stra\u{df}e?q=1#f")).unwrap();
    let authority = uri.authority.unwrap();
    assert_eq!(authority.host, "user@b\u{fc}cher.example");
    assert!(authority.userinfo.is_none());
    assert_eq!(authority.port, 80);
    assert_eq!(uri.path, "/stra\u{df}e?q=1#f");
}

#[test]
fn scheme_tokens_are_written_and_read() {
    for scheme in [Scheme::Data, Scheme::File, Scheme::HTTP, Scheme::HTTPS, Scheme::VIEWSOURCE] {
        assert_eq!(Scheme::from_str(scheme.as_str()), Ok(scheme));
    }
    assert_eq!(Scheme::HTTPS.as_str(), "https");
    assert_eq!(Scheme::VIEWSOURCE.as_str(), "view-source");
    assert_eq!(Scheme::from_str("gopher"), Err("Invalid Scheme."));
    assert_eq!(Scheme::from_str(""), Err("Invalid Scheme."));
}

#[test]
fn parsing_twice_gives_the_same() {
    let text = String::from("view-source:https://h:8443/a/b?c");
    let first = URI::parse(&text).unwrap();
    let second = URI::parse(&text).unwrap();
    let copy = first.duplicate();
    assert_eq!(first.scheme, second.scheme);
    assert_eq!(first.path, second.path);
    assert_eq!(copy.path, second.path);
    assert_eq!(copy.flags.get("view-source"), Some(&true));
    let (a, b) = (first.authority.unwrap(), second.authority.unwrap());
    assert_eq!(a.host, b.host);
    assert_eq!(a.port, b.port);
    assert_eq!(copy.authority.unwrap().port, 8443);
}
