use jit_compiler::api::{
    api_stats, cache_response, create_error_response, create_http_response, error_response,
    execute_response, fallback_error_body, handle_options, parse_http_request, route,
    status_text_of_error, Route,
};
use jit_compiler::ast::JitStats;
use jit_compiler::dump::dump_code;
use jit_compiler::fingerprint::fingerprint_of;
use jit_compiler::jit::JitCompiler;
use jit_compiler::parser::Parser;
use jit_compiler::report::{cache_heading, entry_report, summary_of};
use jit_compiler::text::same_text;

#[test]
fn test_parse_http_request() {
    let request = "GET /api/health HTTP/1.1\r\nHost: localhost:3001\r\n\r\n";
    let (method, path, body) = parse_http_request(request);

    assert_eq!(method, "GET");
    assert_eq!(path, "/api/health");
    assert_eq!(body, "");
}

#[test]
fn test_parse_post_request() {
    let request =
        "POST /api/execute HTTP/1.1\r\nContent-Type: application/json\r\n\r\n{\"code\":\"1+2\"}";
    let (method, path, body) = parse_http_request(request);

    assert_eq!(method, "POST");
    assert_eq!(path, "/api/execute");
    assert_eq!(body, r#"{"code":"1+2"}"#);
}

fn parts(request: &str) -> (String, String, String) {
    parse_http_request(request)
}

fn owned(method: &str, path: &str, body: &str) -> (String, String, String) {
    (method.to_string(), path.to_string(), body.to_string())
}

#[test]
fn a_request_without_words_gets_the_defaults() {
    assert_eq!(parts(""), owned("GET", "/", ""));
    assert_eq!(parts("   \r\n"), owned("GET", "/", ""));
    assert_eq!(parts("DELETE"), owned("DELETE", "/", ""));
    assert_eq!(parts("\nPOST /x"), owned("GET", "/", ""));
}

#[test]
fn words_are_separated_by_any_white_space() {
    assert_eq!(parts("  PUT \t /a/b   HTTP/1.1\n\nbody"), owned("PUT", "/a/b", "body"));
}

#[test]
fn the_body_follows_the_first_empty_line() {
    assert_eq!(parts("GET / x\n\nfirst\n\nsecond"), owned("GET", "/", "first\n\nsecond"));
    assert_eq!(parts("GET / x\r\n\r\na\r\n\r\nb"), owned("GET", "/", "a\r\n\r\nb"));
    // An empty line that ends in carriage return and line feed comes first, wherever
    // it stands.
    assert_eq!(parts("GET /\n\nxx\r\n\r\nyy"), owned("GET", "/", "yy"));
    assert_eq!(parts("GET /\r\n\r\n"), owned("GET", "/", ""));
    assert_eq!(parts("GET /\r\nHost: a\r\n"), owned("GET", "/", ""));
    assert_eq!(parts("GET /\n\n\u{3042}\u{3044}"), owned("GET", "/", "\u{3042}\u{3044}"));
}

#[test]
fn a_response_announces_the_bytes_of_its_body() {
    assert_eq!(
        create_http_response(200, "OK", "{\"a\":1}"),
        "HTTP/1.1 200 OK\r\nContent-Type: application/json\r\nAccess-Control-Allow-Origin: *\r\nContent-Length: 7\r\n\r\n{\"a\":1}"
    );
    assert_eq!(
        create_http_response(0, "", ""),
        "HTTP/1.1 0 \r\nContent-Type: application/json\r\nAccess-Control-Allow-Origin: *\r\nContent-Length: 0\r\n\r\n"
    );
    // Three characters of three bytes each.
    let response = create_http_response(65535, "Odd", "\u{3042}\u{3044}\u{3046}");
    assert!(response.starts_with("HTTP/1.1 65535 Odd\r\n"));
    assert!(response.ends_with("Content-Length: 9\r\n\r\n\u{3042}\u{3044}\u{3046}"));
}

#[test]
fn an_error_goes_with_the_words_of_its_status() {
    assert_eq!(status_text_of_error(400), "Bad Request");
    assert_eq!(status_text_of_error(404), "Not Found");
    assert_eq!(status_text_of_error(500), "Internal Server Error");
    assert_eq!(status_text_of_error(503), "Service Unavailable");
    assert_eq!(status_text_of_error(418), "Error");
    assert_eq!(
        create_error_response(404, "{}"),
        create_http_response(404, "Not Found", "{}")
    );
    assert_eq!(fallback_error_body("Lock timeout"), "{\"error\":\"Lock timeout\"}");
    let error = error_response("Invalid JSON");
    assert_eq!(error.error, "Invalid JSON");
    assert_eq!(error.details, None);
}

#[test]
fn the_answer_to_options_allows_any_origin() {
    assert_eq!(
        handle_options(),
        "HTTP/1.1 200 OK\r\n\
         Access-Control-Allow-Origin: *\r\n\
         Access-Control-Allow-Methods: GET, POST, OPTIONS\r\n\
         Access-Control-Allow-Headers: Content-Type\r\n\
         Content-Length: 0\r\n\r\n"
    );
}

#[test]
fn each_operation_has_its_route() {
    assert_eq!(route("GET", "/api/health"), Route::Health);
    assert_eq!(route("GET", "/api/stats"), Route::Stats);
    assert_eq!(route("GET", "/api/cache"), Route::Cache);
    assert_eq!(route("POST", "/api/execute"), Route::Execute);
    assert_eq!(route("POST", "/api/reset"), Route::Reset);
    assert_eq!(route("OPTIONS", "/anything"), Route::Options);
    assert_eq!(route("GET", "/api/execute"), Route::NotFound);
    assert_eq!(route("POST", "/api/health"), Route::NotFound);
    assert_eq!(route("get", "/api/health"), Route::NotFound);
    assert_eq!(route("GET", "/"), Route::NotFound);
}

#[test]
fn averages_round_down_and_are_zero_without_measurements() {
    let stats = JitStats {
        total_executions: 4,
        jit_compilations: 3,
        total_execution_time_ns: 10,
        total_compilation_time_ns: 100,
        hot_functions: Vec::new(),
    };
    let report = api_stats(&stats, 7);
    assert_eq!(report.total_executions, 4);
    assert_eq!(report.jit_compilations, 3);
    assert_eq!(report.total_execution_time_ns, 10);
    assert_eq!(report.total_compilation_time_ns, 100);
    assert_eq!(report.average_execution_time_ns, 2);
    assert_eq!(report.average_compilation_time_ns, 33);
    assert_eq!(report.cache_entries, 7);

    let report = api_stats(&JitStats::default(), 0);
    assert_eq!(report.average_execution_time_ns, 0);
    assert_eq!(report.average_compilation_time_ns, 0);
}

#[test]
fn a_compiled_execution_is_answered_with_a_message() {
    let mut jit = JitCompiler::with_limits(2, 10);
    let first = execute_response(&jit.execute_string("4 * 4").unwrap());
    assert_eq!(first.result, 16);
    assert!(!first.was_jit_compiled);
    assert_eq!(first.message, None);
    let result = jit.execute_string("4 * 4").unwrap();
    let second = execute_response(&result);
    assert_eq!(second.result, 16);
    assert_eq!(second.execution_time_ns, result.execution_time_ns);
    assert!(second.was_jit_compiled);
    assert_eq!(second.message, Some("JIT compiled".to_string()));
}

#[test]
fn fingerprints_are_shown_in_hexadecimal() {
    let info = vec![(0u64, 1u64, false), (255, 2, true), (0xdead_beef_0123_4567, 3, false), (u64::MAX, 4, true)];
    let response = cache_response(&info);
    assert_eq!(response.total_entries, 4);
    let hashes: Vec<&str> = response.entries.iter().map(|e| e.hash.as_str()).collect();
    assert_eq!(hashes, vec!["0x0", "0xff", "0xdeadbeef01234567", "0xffffffffffffffff"]);
    assert_eq!(response.entries[1].execution_count, 2);
    assert!(response.entries[1].is_compiled);
    assert!(!response.entries[2].is_compiled);
    assert_eq!(response.entries[3].code_size_bytes, None);
    assert_eq!(cache_response(&Vec::new()).total_entries, 0);
}

#[test]
fn a_dump_has_sixteen_bytes_to_the_line() {
    assert_eq!(dump_code(&Vec::new()), "マシンコード (0バイト):\n");
    assert_eq!(
        dump_code(&vec![0xab]),
        format!("マシンコード (1バイト):\n00000000: ab {} \n", "   ".repeat(15))
    );
    let eight: Vec<u8> = (0..8).collect();
    assert_eq!(
        dump_code(&eight),
        format!(
            "マシンコード (8バイト):\n00000000: 00 01 02 03 04 05 06 07  {} \n",
            "   ".repeat(8)
        )
    );
    let nine: Vec<u8> = (0..9).collect();
    assert_eq!(
        dump_code(&nine),
        format!(
            "マシンコード (9バイト):\n00000000: 00 01 02 03 04 05 06 07  08 {}\n",
            "   ".repeat(7)
        )
    );
    let many: Vec<u8> = (0..33).map(|i| (i * 7) as u8).collect();
    assert_eq!(
        dump_code(&many),
        format!(
            "マシンコード (33バイト):\n\
             00000000: 00 07 0e 15 1c 23 2a 31  38 3f 46 4d 54 5b 62 69 \n\
             00000010: 70 77 7e 85 8c 93 9a a1  a8 af b6 bd c4 cb d2 d9 \n\
             00000020: e0 {} \n",
            "   ".repeat(15)
        )
    );
}

#[test]
fn texts_are_the_same_when_their_characters_are() {
    assert!(same_text("fib", "fib"));
    assert!(!same_text("fib", "fab"));
    assert!(!same_text("fib", "fibs"));
    assert!(same_text("", ""));
}

#[test]
fn the_summary_reports_means_where_there_are_any() {
    let stats = JitStats {
        total_executions: 4,
        jit_compilations: 0,
        total_execution_time_ns: 10_500,
        total_compilation_time_ns: 999,
        hot_functions: Vec::new(),
    };
    assert_eq!(
        summary_of(&stats),
        "\n📊 JIT統計情報:\n  総実行回数: 4\n  JITコンパイル回数: 0\n  総実行時間: 10μs\n  総コンパイル時間: 0μs\n  平均実行時間: 2625ns\n"
    );
    let stats = JitStats {
        total_executions: 0,
        jit_compilations: 2,
        total_execution_time_ns: 0,
        total_compilation_time_ns: 3001,
        hot_functions: Vec::new(),
    };
    assert_eq!(
        summary_of(&stats),
        "\n📊 JIT統計情報:\n  総実行回数: 0\n  JITコンパイル回数: 2\n  総実行時間: 0μs\n  総コンパイル時間: 3μs\n  平均コンパイル時間: 1500ns\n"
    );
    assert_eq!(cache_heading(), "\n🔍 JITキャッシュ情報:\n");
}

#[test]
fn an_entry_is_reported_with_its_code_and_variables() {
    let mut jit = JitCompiler::with_limits(2, 10);
    let text = "if(a = 1, b = 2, 3)";
    let hash = fingerprint_of(&Parser::new(text).unwrap().parse().unwrap());
    jit.execute_string(text).unwrap();
    assert_eq!(
        entry_report(jit.lookup_entry(hash).unwrap()),
        format!("  Hash: {:#x}, 実行回数: 1, JITコンパイル済み: false\n", hash)
    );
    jit.execute_string(text).unwrap();
    assert_eq!(
        entry_report(jit.lookup_entry(hash).unwrap()),
        format!(
            "  Hash: {:#x}, 実行回数: 2, JITコンパイル済み: true\n    マシンコードサイズ: 46バイト\n    変数: {{\"a\": -8, \"b\": -16}}\n",
            hash
        )
    );
    jit.execute_string("7").unwrap();
    jit.execute_string("7").unwrap();
    let seven = fingerprint_of(&Parser::new("7").unwrap().parse().unwrap());
    assert!(entry_report(jit.lookup_entry(seven).unwrap()).ends_with("変数: {}\n"));
    assert!(jit.lookup_entry(1).is_none());
}
