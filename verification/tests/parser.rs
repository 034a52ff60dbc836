use httpfile::{parse, Error, Header, HttpRequest, LineSource, Parser};

#[test]
fn parse_simplest() -> Result<(), Error> {
    let input = r#"
            POST https://example.com/comments HTTP/1.1
            content-type: application/json

            {
                "name": "sample",
                "time": "Wed, 21 Oct 2015 18:27:50 GMT"
            }
        "#;
    let expected = HttpRequest {
        comment: String::new(),
        method: "POST".to_owned(),
        url: "https://example.com/comments".to_owned(),
        version: "HTTP/1.1".to_owned(),
        headers: vec![Header {
            name: "content-type".to_owned(),
            value: "application/json".to_owned(),
        }],
        body: r#"{"name": "sample","time": "Wed, 21 Oct 2015 18:27:50 GMT"}"#.to_owned(),
    };
    let mut parser = Parser::new(LineSource::new(input));

    let request = parser.next().unwrap()?;
    let next = parser.next();

    assert_eq!(request, expected);
    assert!(next.is_none());

    Ok(())
}

#[test]
fn parse_multiple_2() -> Result<(), Error> {
    let input = r#"
            ###
            # Comments
            POST https://example.com/comments HTTP/1.1
            content-type: application/json

            {
                "name": "sample",
                "time": "Wed, 21 Oct 2015 18:27:50 GMT"
            }



            ###
            # GET without body and headers
            POST https://example.com/ HTTP/2.0
        "#;
    let expect_request1 = HttpRequest {
        comment: "# Comments".to_owned(),
        method: "POST".to_owned(),
        url: "https://example.com/comments".to_owned(),
        version: "HTTP/1.1".to_owned(),
        headers: vec![Header {
            name: "content-type".to_owned(),
            value: "application/json".to_owned(),
        }],
        body: r#"{"name": "sample","time": "Wed, 21 Oct 2015 18:27:50 GMT"}"#.to_owned(),
    };
    let expect_request2 = HttpRequest {
        comment: "# GET without body and headers".to_owned(),
        method: "POST".to_owned(),
        url: "https://example.com/".to_owned(),
        version: "HTTP/2.0".to_owned(),
        headers: Vec::new(),
        body: String::new(),
    };

    let requests = parse(input)?;

    assert_eq!(requests, vec![expect_request1, expect_request2]);

    Ok(())
}

#[test]
fn empty_input_yields_no_items() {
    let requests = parse("").unwrap();
    assert!(requests.is_empty());
}

#[test]
fn blank_input_yields_no_items() {
    let requests = parse("   \n\n \t \n").unwrap();
    assert!(requests.is_empty());
}

#[test]
fn single_token_request_line_fails_no_url() {
    let result = parse("GET\n");
    assert!(matches!(result, Err(Error::NoUrl)));
}

#[test]
fn version_defaults_when_absent() {
    let requests = parse("GET https://example.com/\n").unwrap();
    assert_eq!(requests.len(), 1);
    assert_eq!(requests[0].method, "GET");
    assert_eq!(requests[0].url, "https://example.com/");
    assert_eq!(requests[0].version, "HTTP/1.1");
    assert!(requests[0].headers.is_empty());
    assert_eq!(requests[0].body, "");
}

#[test]
fn trailing_block_completes_at_eof() {
    // A complete request line, no closing separator, no trailing newline.
    let requests = parse("GET https://example.com/x HTTP/2.0").unwrap();
    assert_eq!(requests.len(), 1);
    assert_eq!(requests[0].method, "GET");
    assert_eq!(requests[0].url, "https://example.com/x");
    assert_eq!(requests[0].version, "HTTP/2.0");
}

#[test]
fn comment_only_tail_yields_no_items() {
    let requests = parse("# just a note\n# and another").unwrap();
    assert!(requests.is_empty());
}

#[test]
fn comment_lines_concatenate_without_delimiter() {
    let requests = parse("# a\n# b\nGET https://example.com/\n").unwrap();
    assert_eq!(requests.len(), 1);
    assert_eq!(requests[0].comment, "# a# b");
}

#[test]
fn body_lines_concatenate_and_blanks_are_skipped() {
    let input = "GET https://example.com/\n\nalpha\n\nbeta\n";
    let requests = parse(input).unwrap();
    assert_eq!(requests.len(), 1);
    assert_eq!(requests[0].body, "alphabeta");
}

#[test]
fn separator_ends_body_and_next_block_follows() {
    let input = "GET https://example.com/a\n\nbody one\n###\nGET https://example.com/b\n";
    let requests = parse(input).unwrap();
    assert_eq!(requests.len(), 2);
    assert_eq!(requests[0].url, "https://example.com/a");
    assert_eq!(requests[0].body, "body one");
    assert_eq!(requests[1].url, "https://example.com/b");
    assert_eq!(requests[1].body, "");
}

#[test]
fn separator_is_not_recognized_in_headers_phase() {
    // A `###` line while headers are being scanned is handed to the header
    // parser and fails as a header without `": "`.
    let input = "GET https://example.com/\n###\n";
    let result = parse(input);
    assert!(matches!(result, Err(Error::InvalidHeaderName)));
}

#[test]
fn malformed_header_fails_the_item_but_not_the_sequence() {
    let input = "GET https://example.com/a\nnot a header\nGET https://example.com/b HTTP/2.0";
    let mut parser = Parser::new(LineSource::new(input));

    let first = parser.next().unwrap();
    assert!(matches!(first, Err(Error::InvalidHeaderName)));

    let second = parser.next().unwrap().unwrap();
    assert_eq!(second.method, "GET");
    assert_eq!(second.url, "https://example.com/b");
    assert_eq!(second.version, "HTTP/2.0");

    assert!(parser.next().is_none());
}

#[test]
fn reparsing_the_same_input_is_identical() {
    let input = "# c\nPOST https://example.com/ HTTP/1.1\na: b\n\nbody\n###\nGET https://example.com/x\n";
    let first = parse(input).unwrap();
    let second = parse(input).unwrap();
    assert_eq!(first, second);
}

#[test]
fn duplicate_headers_are_kept_in_order() {
    let input = "GET https://example.com/\nx: 1\nx: 2\n";
    let requests = parse(input).unwrap();
    assert_eq!(requests.len(), 1);
    assert_eq!(
        requests[0].headers,
        vec![
            Header { name: "x".to_owned(), value: "1".to_owned() },
            Header { name: "x".to_owned(), value: "2".to_owned() },
        ]
    );
}

#[test]
fn leading_separator_with_trailing_text_is_absorbed() {
    let input = "### section\nGET https://example.com/\n";
    let requests = parse(input).unwrap();
    assert_eq!(requests.len(), 1);
    assert_eq!(requests[0].comment, "");
    assert_eq!(requests[0].method, "GET");
}
