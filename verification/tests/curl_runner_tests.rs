use shellshelf::curl_runner::{
    analyze_command, build_body_representation, curl_invocation_args, finish_run, finish_run_from_texts,
    last_request_in_trace, last_response_headers_in,
    merge_request_details, parse_http_status, parse_last_request_from_trace,
    parse_last_response_headers, parse_request_details, prepare_run, RequestDetails,
    ResponseBodyKind, ResponseHeader, RunStore, StoredRunBody, MAX_STORED_BODIES,
};

fn header(name: &str, value: &str) -> ResponseHeader {
    ResponseHeader {
        name: name.to_string(),
        value: value.to_string(),
    }
}

#[test]
fn test_analyze_command_rejects_non_curl() {
    let analysis = analyze_command("git status");
    assert!(!analysis.runnable);
    assert!(analysis
        .unsupported_reason
        .unwrap()
        .contains("Only curl commands"));
}

#[test]
fn test_analyze_command_rejects_capture_conflicts() {
    let analysis = analyze_command("curl -o response.json https://example.com");
    assert!(!analysis.runnable);
    assert!(analysis
        .unsupported_reason
        .unwrap()
        .contains("unsupported option"));
}

#[test]
fn test_analyze_command_allows_head_requests() {
    let analysis = analyze_command("curl -I https://example.com");
    assert!(analysis.runnable);
    assert!(analysis.unsupported_reason.is_none());
}

#[test]
fn analyze_command_reports_parse_failures_and_empty_commands() {
    let analysis = analyze_command("curl 'unterminated");
    assert!(!analysis.runnable);
    assert_eq!(
        analysis.unsupported_reason.as_deref(),
        Some("Command parsing failed: missing closing quote")
    );
    let empty = analyze_command("   ");
    assert_eq!(empty.unsupported_reason.as_deref(), Some("Command is empty."));
    let output = analyze_command("curl --output=x https://example.com");
    assert_eq!(
        output.unsupported_reason.as_deref(),
        Some("This curl command uses unsupported option '--output=x' in the web interface.")
    );
}

#[test]
fn test_parse_last_response_headers_uses_last_block() {
    let headers = parse_last_response_headers(
        b"HTTP/1.1 301 Moved Permanently\r\nLocation: /next\r\n\r\nHTTP/1.1 200 OK\r\nContent-Type: image/gif\r\nCache-Control: max-age=60\r\n\r\n",
    );

    assert_eq!(headers.len(), 2);
    assert_eq!(headers[0].name, "Content-Type");
    assert_eq!(headers[0].value, "image/gif");
}

#[test]
fn test_parse_last_request_from_trace_uses_last_send_header_block() {
    let request = parse_last_request_from_trace(
        br#"== Info: first
=> Send header, 39 bytes (0x27)
0000: GET /redirect HTTP/1.1
0018: Host: example.com
002a: User-Agent: curl/8.7.1
0045:
== Info: second
=> Send header, 58 bytes (0x3a)
0000: POST /final HTTP/1.1
0019: Host: example.com
002b: User-Agent: curl/8.7.1
0046: Accept: */*
0054: Content-Type: application/json
0075:
"#,
    )
    .unwrap();

    assert_eq!(request.method, "POST");
    assert_eq!(
        request.headers,
        vec![
            header("Host", "example.com"),
            header("User-Agent", "curl/8.7.1"),
            header("Accept", "*/*"),
            header("Content-Type", "application/json"),
        ]
    );
}

#[test]
fn parse_last_request_from_trace_without_headers_is_none() {
    assert!(parse_last_request_from_trace(b"== Info: nothing sent\n").is_none());
}

#[test]
fn test_merge_request_details_prefers_traced_headers() {
    let fallback = RequestDetails {
        method: "GET".to_string(),
        url: Some("https://example.com/anything".to_string()),
        headers: vec![header("Authorization", "Token 123")],
    };
    let traced = RequestDetails {
        method: "GET".to_string(),
        url: None,
        headers: vec![header("Host", "example.com"), header("User-Agent", "curl/8.7.1")],
    };

    let merged = merge_request_details(fallback, Some(traced));

    assert_eq!(merged.method, "GET");
    assert_eq!(merged.url.as_deref(), Some("https://example.com/anything"));
    assert_eq!(merged.headers.len(), 2);
    assert_eq!(merged.headers[0].name, "Host");
    assert_eq!(merged.headers[1].name, "User-Agent");
}

#[test]
fn test_parse_request_details_extracts_method_url_and_headers() {
    let args = shell_words::split(
        "curl -X POST https://example.com/upload -H 'Authorization: Token 123' -H'Accept: application/json' -d '{}'",
    )
    .unwrap();

    let request = parse_request_details(&args);

    assert_eq!(request.method, "POST");
    assert_eq!(request.url.as_deref(), Some("https://example.com/upload"));
    assert_eq!(request.headers.len(), 2);
    assert_eq!(request.headers[0].name, "Authorization");
    assert_eq!(request.headers[0].value, "Token 123");
    assert_eq!(request.headers[1].name, "Accept");
    assert_eq!(request.headers[1].value, "application/json");
}

#[test]
fn test_parse_request_details_defaults_to_post_for_body_requests() {
    let args = shell_words::split("curl https://example.com/upload --data 'hello world'").unwrap();

    let request = parse_request_details(&args);

    assert_eq!(request.method, "POST");
    assert_eq!(request.url.as_deref(), Some("https://example.com/upload"));
}

#[test]
fn parse_request_details_head_and_get_defaults() {
    let head = parse_request_details(&shell_words::split("curl -I https://example.com").unwrap());
    assert_eq!(head.method, "HEAD");
    let get = parse_request_details(&shell_words::split("curl https://example.com").unwrap());
    assert_eq!(get.method, "GET");
    assert_eq!(get.url.as_deref(), Some("https://example.com"));
    assert!(get.headers.is_empty());
}

#[test]
fn test_run_store_evicts_old_bodies() {
    let mut store = RunStore::new();

    let first = store.store_body(StoredRunBody {
        content_type: "image/gif".to_string(),
        bytes: vec![1],
    });

    for index in 0..MAX_STORED_BODIES {
        store.store_body(StoredRunBody {
            content_type: "image/gif".to_string(),
            bytes: vec![index as u8],
        });
    }

    assert!(store.get_body(first).is_none());
}

#[test]
fn run_store_keeps_newest_bodies() {
    let mut store = RunStore::new();
    let first = store.store_body(StoredRunBody {
        content_type: "image/png".to_string(),
        bytes: vec![9, 8],
    });
    assert_eq!(first, 1);
    let body = store.get_body(first).unwrap();
    assert_eq!(body.content_type, "image/png");
    assert_eq!(body.bytes, vec![9, 8]);
    let mut last = first;
    for _ in 1..MAX_STORED_BODIES {
        last = store.store_body(StoredRunBody {
            content_type: "video/mp4".to_string(),
            bytes: vec![0],
        });
    }
    assert_eq!(last, MAX_STORED_BODIES as u64);
    assert!(store.get_body(first).is_some());
    assert!(store.get_body(last + 1).is_none());
}

#[test]
fn body_representation_by_content_type() {
    let mut store = RunStore::new();
    let (kind, text, note, url) = build_body_representation(&mut store, b"hello", Some("text/plain"));
    assert_eq!(kind, ResponseBodyKind::Text);
    assert_eq!(text.as_deref(), Some("hello"));
    assert!(note.is_none() && url.is_none());

    let (kind, _, _, url) = build_body_representation(&mut store, b"GIF89a", Some("image/gif"));
    assert_eq!(kind, ResponseBodyKind::Image);
    assert_eq!(url.as_deref(), Some("/api/runs/1/body"));

    let (kind, _, note, _) =
        build_body_representation(&mut store, &[0xff, 0xfe, 0x00], Some("application/octet-stream"));
    assert_eq!(kind, ResponseBodyKind::Binary);
    assert_eq!(
        note.as_deref(),
        Some("Binary response captured. Inline preview is only available for image and video responses.")
    );

    let (kind, _, _, _) = build_body_representation(&mut store, b"", Some("text/plain"));
    assert_eq!(kind, ResponseBodyKind::Empty);
}

#[test]
fn http_status_is_read_after_marker() {
    assert_eq!(parse_http_status("body\n__SHELLSHELF_HTTP_CODE__:200"), Some(200));
    assert_eq!(parse_http_status("no marker"), None);
}

#[test]
fn finish_run_ignores_body_of_head_requests() {
    let mut store = RunStore::new();
    let request = RequestDetails {
        method: "HEAD".to_string(),
        url: Some("http://localhost/".to_string()),
        headers: Vec::new(),
    };
    let response = finish_run(
        request,
        0,
        true,
        b"__SHELLSHELF_HTTP_CODE__:200",
        b"  \n",
        b"HTTP/1.1 200 OK\r\nContent-Type: text/plain; charset=utf-8\r\n\r\n",
        b"hello",
        b"",
        &mut store,
    );
    assert!(response.success);
    assert_eq!(response.request.method, "HEAD");
    assert_eq!(response.http_status, Some(200));
    assert_eq!(response.content_type.as_deref(), Some("text/plain"));
    assert_eq!(response.body_kind, ResponseBodyKind::Empty);
    assert!(response.body_text.is_none());
    assert_eq!(response.stderr, "");
}

#[test]
fn finish_run_returns_text_body() {
    let mut store = RunStore::new();
    let request = RequestDetails {
        method: "GET".to_string(),
        url: Some("http://localhost/".to_string()),
        headers: Vec::new(),
    };
    let response = finish_run(
        request,
        0,
        true,
        b"__SHELLSHELF_HTTP_CODE__:200",
        b"",
        b"HTTP/1.1 200 OK\r\nContent-Type: text/plain\r\n\r\n",
        b"hello from shellshelf",
        b"",
        &mut store,
    );
    assert_eq!(response.body_kind, ResponseBodyKind::Text);
    assert_eq!(response.body_text.as_deref(), Some("hello from shellshelf"));
}

#[test]
fn prepare_run_and_invocation_arguments() {
    let (args, request) = prepare_run("curl -X PUT https://example.com/x").unwrap();
    assert_eq!(request.method, "PUT");
    let full = curl_invocation_args(&args, "/t/trace", "/t/headers", "/t/body");
    assert_eq!(
        full,
        vec![
            "-X", "PUT", "https://example.com/x", "--silent", "--show-error", "--trace-ascii",
            "/t/trace", "--dump-header", "/t/headers", "--output", "/t/body", "--write-out",
            "__SHELLSHELF_HTTP_CODE__:%{http_code}",
        ]
        .into_iter()
        .map(str::to_string)
        .collect::<Vec<_>>()
    );
    assert_eq!(
        prepare_run("ls -la").err().as_deref(),
        Some("Only curl commands can run in the web interface.")
    );
}

#[test]
fn last_response_headers_in_reads_decoded_text() {
    let headers = last_response_headers_in("HTTP/1.1 200 OK\r\nContent-Type: text/html\r\n\r\n");
    assert_eq!(headers, vec![header("Content-Type", "text/html")]);
}

#[test]
fn last_request_in_trace_reads_decoded_text() {
    let request = last_request_in_trace("=> Send header, 20 bytes\n0000: PUT /x HTTP/1.1\n0010: Host: a.test\n0020:\n").unwrap();
    assert_eq!(request.method, "PUT");
    assert_eq!(request.headers, vec![header("Host", "a.test")]);
}

#[test]
fn finish_run_from_texts_trims_stderr_and_reads_status() {
    let mut store = RunStore::new();
    let request = RequestDetails {
        method: "GET".to_string(),
        url: Some("http://localhost/".to_string()),
        headers: Vec::new(),
    };
    let response = finish_run_from_texts(
        request,
        7,
        false,
        "__SHELLSHELF_HTTP_CODE__:404",
        "  failed  \n",
        "HTTP/1.1 404 Not Found\r\nContent-Type: text/plain\r\n\r\n",
        b"gone",
        "",
        &mut store,
    );
    assert_eq!(response.exit_code, 7);
    assert!(!response.success);
    assert_eq!(response.http_status, Some(404));
    assert_eq!(response.stderr, "failed");
    assert_eq!(response.body_text.as_deref(), Some("gone"));
}
