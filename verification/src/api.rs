//! What the transport layer computes: requests taken apart, responses put together.
//!
//! Nothing here reads or writes a socket. A caller reads a request, hands its text to
//! `parse_http_request`, picks a handler by `route`, and frames the serialized answer
//! with `create_http_response`.

use crate::ast::{ExecutionResult, JitStats};
use crate::lexer::{char_is_space, chars_of, is_space, skip_spaces};
use crate::text::{decimal_text, hex_text, push_digits, push_text, same_text, zeros};
use vstd::prelude::*;
use vstd::string::StringSliceAdditionalSpecFns;

verus! {

/// The counters as a response reports them.
#[derive(Debug)]
pub struct ApiJitStats {
    pub total_executions: u64,
    pub jit_compilations: u64,
    pub total_execution_time_ns: u64,
    pub total_compilation_time_ns: u64,
    pub average_execution_time_ns: u64,
    pub average_compilation_time_ns: u64,
    pub cache_entries: usize,
}

/// A request to execute a source text.
#[derive(Debug)]
pub struct ExecuteRequest {
    pub code: String,
}

/// The answer to a request to execute a source text.
#[derive(Debug)]
pub struct ExecuteResponse {
    pub result: i64,
    pub execution_time_ns: u64,
    pub was_jit_compiled: bool,
    pub message: Option<String>,
}

/// A cache entry as a response reports it.
#[derive(Debug)]
pub struct CacheEntry {
    pub hash: String,
    pub execution_count: u64,
    pub is_compiled: bool,
    pub code_size_bytes: Option<usize>,
}

/// The cache as a response reports it.
#[derive(Debug)]
pub struct CacheResponse {
    pub entries: Vec<CacheEntry>,
    pub total_entries: usize,
}

/// An error as a response reports it.
#[derive(Debug)]
pub struct ErrorResponse {
    pub error: String,
    pub details: Option<String>,
}

/// The operations that the transport layer offers.
#[derive(Debug, Clone, Copy, PartialEq, Eq, Structural)]
pub enum Route {
    Health,
    Stats,
    Cache,
    Execute,
    Reset,
    Options,
    NotFound,
}

/// Whether `pattern` stands in `s` at `i`.
pub open spec fn matches_at(s: Seq<char>, pattern: Seq<char>, i: int) -> bool {
    0 <= i && i + pattern.len() <= s.len() && s.subrange(i, i + pattern.len()) == pattern
}

/// The first position from `i` on at which `pattern` stands in `s`, or -1 if there is
/// none.
pub open spec fn find_from(s: Seq<char>, pattern: Seq<char>, i: int) -> int
    decreases s.len() - i + 1,
{
    if i < 0 || i + pattern.len() > s.len() {
        -1
    } else if matches_at(s, pattern, i) {
        i
    } else {
        find_from(s, pattern, i + 1)
    }
}

/// The first position from `i` on that holds white space, or the end.
pub open spec fn skip_word(s: Seq<char>, i: int) -> int
    decreases s.len() - i,
{
    if 0 <= i < s.len() && !is_space(s[i]) {
        skip_word(s, i + 1)
    } else {
        i
    }
}

/// The first line of `s`: all up to the first line feed.
pub open spec fn first_line(s: Seq<char>) -> Seq<char> {
    let end = find_from(s, seq!['\n'], 0);
    if end < 0 {
        s
    } else {
        s.subrange(0, end)
    }
}

/// The word of `line` that starts at or after `from`, white space aside: where it starts
/// and where it ends. There is none where the start is the end of the line.
pub open spec fn word_after(line: Seq<char>, from: int) -> (int, int) {
    (skip_spaces(line, from), skip_word(line, skip_spaces(line, from)))
}

/// The method of a request: the first word of its first line, `GET` if there is none.
pub open spec fn method_of(request: Seq<char>) -> Seq<char> {
    let line = first_line(request);
    let (start, end) = word_after(line, 0);
    if start < line.len() {
        line.subrange(start, end)
    } else {
        "GET"@
    }
}

/// The path of a request: the second word of its first line, `/` if there is none.
pub open spec fn path_of(request: Seq<char>) -> Seq<char> {
    let line = first_line(request);
    let (start, end) = word_after(line, word_after(line, 0).1);
    if start < line.len() {
        line.subrange(start, end)
    } else {
        "/"@
    }
}

/// The body of a request: all after the first empty line, which ends in carriage return
/// and line feed or, if there is none such, in line feed alone. Empty if there is no
/// empty line.
pub open spec fn body_of(request: Seq<char>) -> Seq<char> {
    let crlf = find_from(request, seq!['\r', '\n', '\r', '\n'], 0);
    let lf = find_from(request, seq!['\n', '\n'], 0);
    if crlf >= 0 {
        request.subrange(crlf + 4, request.len() as int)
    } else if lf >= 0 {
        request.subrange(lf + 2, request.len() as int)
    } else {
        Seq::empty()
    }
}

/// The first position at which `pattern` stands in `chars`.
fn find(chars: &Vec<char>, pattern: &Vec<char>) -> (found: Option<usize>)
    ensures
        match found {
            Some(i) => find_from(chars@, pattern@, 0) == i && i + pattern@.len() <= chars@.len(),
            None => find_from(chars@, pattern@, 0) == -1,
        },
{
    if pattern.len() > chars.len() {
        return None;
    }
    let last = chars.len() - pattern.len();
    let mut i: usize = 0;
    if last == usize::MAX {
        return if pattern.len() == 0 {
            assert(chars@.subrange(0, 0) =~= pattern@);
            Some(0)
        } else {
            None
        };
    }
    while i <= last
        invariant
            i <= last + 1,
            last == chars@.len() - pattern@.len(),
            chars@.len() <= usize::MAX,
            find_from(chars@, pattern@, 0) == find_from(chars@, pattern@, i as int),
        decreases last + 1 - i,
    {
        let mut j: usize = 0;
        while j < pattern.len() && chars[i + j] == pattern[j]
            invariant
                i <= last,
                last == chars@.len() - pattern@.len(),
                chars@.len() <= usize::MAX,
                j <= pattern@.len(),
                forall|k: int| 0 <= k < j ==> chars@[i + k] == pattern@[k],
            decreases pattern@.len() - j,
        {
            j = j + 1;
        }
        if j == pattern.len() {
            assert(chars@.subrange(i as int, i + pattern@.len()) =~= pattern@);
            return Some(i);
        }
        assert(!matches_at(chars@, pattern@, i as int)) by {
            if matches_at(chars@, pattern@, i as int) {
                assert(chars@.subrange(i as int, i + pattern@.len())[j as int] == pattern@[j as int]);
            }
        }
        i = i + 1;
    }
    None
}

/// The text of `chars` from `start` to `end`.
fn text_of(chars: &Vec<char>, start: usize, end: usize) -> (text: String)
    requires
        start <= end <= chars@.len(),
    ensures
        text@ == chars@.subrange(start as int, end as int),
{
    let mut text = String::new();
    let mut i = start;
    assert(text@ =~= chars@.subrange(start as int, i as int));
    while i < end
        invariant
            start <= i <= end <= chars@.len(),
            text@ == chars@.subrange(start as int, i as int),
        decreases end - i,
    {
        text.push(chars[i]);
        i = i + 1;
        assert(text@ =~= chars@.subrange(start as int, i as int));
    }
    text
}

/// The word of the first `limit` characters of `chars` that starts at or after `from`:
/// where it starts and where it ends.
fn next_word(chars: &Vec<char>, limit: usize, from: usize) -> (word: (usize, usize))
    requires
        from <= limit <= chars@.len(),
    ensures
        (word.0 as int, word.1 as int) == word_after(chars@.subrange(0, limit as int), from as int),
        from <= word.0 <= word.1 <= limit,
{
    let ghost line = chars@.subrange(0, limit as int);
    let mut start = from;
    while start < limit && char_is_space(chars[start])
        invariant
            from <= start <= limit <= chars@.len(),
            line == chars@.subrange(0, limit as int),
            skip_spaces(line, start as int) == skip_spaces(line, from as int),
        decreases limit - start,
    {
        start = start + 1;
    }
    let mut end = start;
    while end < limit && !char_is_space(chars[end])
        invariant
            start <= end <= limit <= chars@.len(),
            line == chars@.subrange(0, limit as int),
            skip_word(line, end as int) == skip_word(line, start as int),
        decreases limit - end,
    {
        end = end + 1;
    }
    (start, end)
}

/// Takes a request apart: its method, its path and its body.
pub fn parse_http_request(request: &str) -> (parts: (String, String, String))
    ensures
        parts.0@ == method_of(request@),
        parts.1@ == path_of(request@),
        parts.2@ == body_of(request@),
{
    let chars = chars_of(request);
    let mut line_feed: Vec<char> = Vec::new();
    line_feed.push('\n');
    assert(line_feed@ =~= seq!['\n']);
    let limit = match find(&chars, &line_feed) {
        Some(i) => i,
        None => chars.len(),
    };
    assert(chars@.subrange(0, limit as int) =~= first_line(request@));
    let (method_start, method_end) = next_word(&chars, limit, 0);
    let method = if method_start < limit {
        let word = text_of(&chars, method_start, method_end);
        assert(word@ =~= first_line(request@).subrange(method_start as int, method_end as int));
        word
    } else {
        "GET".to_string()
    };
    let (path_start, path_end) = next_word(&chars, limit, method_end);
    let path = if path_start < limit {
        let word = text_of(&chars, path_start, path_end);
        assert(word@ =~= first_line(request@).subrange(path_start as int, path_end as int));
        word
    } else {
        "/".to_string()
    };
    let mut crlf: Vec<char> = Vec::new();
    crlf.push('\r');
    crlf.push('\n');
    crlf.push('\r');
    crlf.push('\n');
    assert(crlf@ =~= seq!['\r', '\n', '\r', '\n']);
    let mut lf: Vec<char> = Vec::new();
    lf.push('\n');
    lf.push('\n');
    assert(lf@ =~= seq!['\n', '\n']);
    let total = chars.len();
    let body = match find(&chars, &crlf) {
        Some(i) => text_of(&chars, i + 4, total),
        None => match find(&chars, &lf) {
            Some(i) => text_of(&chars, i + 2, total),
            None => String::new(),
        },
    };
    (method, path, body)
}

/// The text of a response: status line, headers, an empty line, the body. The length
/// that the headers announce is the number of bytes of the body.
pub open spec fn http_response_text(
    status_code: u16,
    status_text: Seq<char>,
    body: Seq<char>,
    body_bytes: nat,
) -> Seq<char> {
    "HTTP/1.1 "@ + decimal_text(status_code as nat) + " "@ + status_text
        + "\r\nContent-Type: application/json\r\nAccess-Control-Allow-Origin: *\r\nContent-Length: "@
        + decimal_text(body_bytes) + "\r\n\r\n"@ + body
}

/// Puts a response together.
pub fn create_http_response(status_code: u16, status_text: &str, body: &str) -> (response: String)
    ensures
        response@ == http_response_text(
            status_code,
            status_text@,
            body@,
            body.len() as nat,
        ),
{
    let mut response = String::new();
    push_text(&mut response, "HTTP/1.1 ");
    push_digits(&mut response, status_code as u64, 10, 0);
    push_text(&mut response, " ");
    push_text(&mut response, status_text);
    push_text(
        &mut response,
        "\r\nContent-Type: application/json\r\nAccess-Control-Allow-Origin: *\r\nContent-Length: ",
    );
    let length = body.len();
    push_digits(&mut response, length as u64, 10, 0);
    push_text(&mut response, "\r\n\r\n");
    push_text(&mut response, body);
    proof {
        assert(zeros(0 - decimal_text(status_code as nat).len()) =~= Seq::<char>::empty());
        assert(zeros(0 - decimal_text(length as nat).len()) =~= Seq::<char>::empty());
        assert(response@ =~= http_response_text(
            status_code,
            status_text@,
            body@,
            body.len() as nat,
        ));
    }
    response
}

/// The answer to a request that asks what requests are allowed: any origin, the methods
/// `GET`, `POST` and `OPTIONS`, the header `Content-Type`; no body.
pub fn handle_options() -> (response: String)
    ensures
        response@
            == "HTTP/1.1 200 OK\r\nAccess-Control-Allow-Origin: *\r\nAccess-Control-Allow-Methods: GET, POST, OPTIONS\r\nAccess-Control-Allow-Headers: Content-Type\r\nContent-Length: 0\r\n\r\n"@,
{
    "HTTP/1.1 200 OK\r\nAccess-Control-Allow-Origin: *\r\nAccess-Control-Allow-Methods: GET, POST, OPTIONS\r\nAccess-Control-Allow-Headers: Content-Type\r\nContent-Length: 0\r\n\r\n".to_string()
}

/// The words that go with the status code of an error.
pub open spec fn error_status_text(status_code: u16) -> Seq<char> {
    if status_code == 400 {
        "Bad Request"@
    } else if status_code == 404 {
        "Not Found"@
    } else if status_code == 500 {
        "Internal Server Error"@
    } else if status_code == 503 {
        "Service Unavailable"@
    } else {
        "Error"@
    }
}

/// The words that go with the status code of an error.
pub fn status_text_of_error(status_code: u16) -> (text: &'static str)
    ensures
        text@ == error_status_text(status_code),
{
    if status_code == 400 {
        "Bad Request"
    } else if status_code == 404 {
        "Not Found"
    } else if status_code == 500 {
        "Internal Server Error"
    } else if status_code == 503 {
        "Service Unavailable"
    } else {
        "Error"
    }
}

/// Puts the response to a failed request together, around the serialized error `body`.
pub fn create_error_response(status_code: u16, body: &str) -> (response: String)
    ensures
        response@ == http_response_text(
            status_code,
            error_status_text(status_code),
            body@,
            body.len() as nat,
        ),
{
    create_http_response(status_code, status_text_of_error(status_code), body)
}

/// The body that reports `message` where the error cannot be serialized: the message
/// as it is, between `{"error":"` and `"}`.
pub fn fallback_error_body(message: &str) -> (body: String)
    ensures
        body@ == "{\"error\":\""@ + message@ + "\"}"@,
{
    let mut body = String::new();
    push_text(&mut body, "{\"error\":\"");
    push_text(&mut body, message);
    push_text(&mut body, "\"}");
    assert(body@ =~= "{\"error\":\""@ + message@ + "\"}"@);
    body
}

/// The error that reports `message`, without details.
pub fn error_response(message: &str) -> (response: ErrorResponse)
    ensures
        response.error@ == message@,
        response.details is None,
{
    ErrorResponse { error: message.to_string(), details: None }
}

/// The operation that a request of `method` for `path` asks for.
pub open spec fn route_of(method: Seq<char>, path: Seq<char>) -> Route {
    if method == "GET"@ && path == "/api/health"@ {
        Route::Health
    } else if method == "GET"@ && path == "/api/stats"@ {
        Route::Stats
    } else if method == "GET"@ && path == "/api/cache"@ {
        Route::Cache
    } else if method == "POST"@ && path == "/api/execute"@ {
        Route::Execute
    } else if method == "POST"@ && path == "/api/reset"@ {
        Route::Reset
    } else if method == "OPTIONS"@ {
        Route::Options
    } else {
        Route::NotFound
    }
}

/// The operation that a request of `method` for `path` asks for.
pub fn route(method: &str, path: &str) -> (r: Route)
    ensures
        r == route_of(method@, path@),
{
    if same_text(method, "GET") && same_text(path, "/api/health") {
        Route::Health
    } else if same_text(method, "GET") && same_text(path, "/api/stats") {
        Route::Stats
    } else if same_text(method, "GET") && same_text(path, "/api/cache") {
        Route::Cache
    } else if same_text(method, "POST") && same_text(path, "/api/execute") {
        Route::Execute
    } else if same_text(method, "POST") && same_text(path, "/api/reset") {
        Route::Reset
    } else if same_text(method, "OPTIONS") {
        Route::Options
    } else {
        Route::NotFound
    }
}

/// The mean of `count` measurements that sum to `total`, rounded down; zero if there is
/// no measurement.
pub open spec fn average(total: u64, count: u64) -> u64 {
    if count > 0 {
        total / count
    } else {
        0
    }
}

/// The counters as a response reports them, for a cache of `cache_entries` entries.
pub fn api_stats(stats: &JitStats, cache_entries: usize) -> (report: ApiJitStats)
    ensures
        report.total_executions == stats.total_executions,
        report.jit_compilations == stats.jit_compilations,
        report.total_execution_time_ns == stats.total_execution_time_ns,
        report.total_compilation_time_ns == stats.total_compilation_time_ns,
        report.average_execution_time_ns == average(
            stats.total_execution_time_ns,
            stats.total_executions,
        ),
        report.average_compilation_time_ns == average(
            stats.total_compilation_time_ns,
            stats.jit_compilations,
        ),
        report.cache_entries == cache_entries,
{
    ApiJitStats {
        total_executions: stats.total_executions,
        jit_compilations: stats.jit_compilations,
        total_execution_time_ns: stats.total_execution_time_ns,
        total_compilation_time_ns: stats.total_compilation_time_ns,
        average_execution_time_ns: if stats.total_executions > 0 {
            stats.total_execution_time_ns / stats.total_executions
        } else {
            0
        },
        average_compilation_time_ns: if stats.jit_compilations > 0 {
            stats.total_compilation_time_ns / stats.jit_compilations
        } else {
            0
        },
        cache_entries,
    }
}

/// The answer to a request that was executed with the result `result`. It carries a
/// message where the expression ran from a compiled entry.
pub fn execute_response(result: &ExecutionResult) -> (response: ExecuteResponse)
    ensures
        response.result == result.value,
        response.execution_time_ns == result.execution_time_ns,
        response.was_jit_compiled == result.was_jit_compiled,
        match response.message {
            Some(message) => result.was_jit_compiled && message@ == "JIT compiled"@,
            None => !result.was_jit_compiled,
        },
{
    ExecuteResponse {
        result: result.value,
        execution_time_ns: result.execution_time_ns,
        was_jit_compiled: result.was_jit_compiled,
        message: if result.was_jit_compiled {
            Some("JIT compiled".to_string())
        } else {
            None
        },
    }
}

/// A fingerprint as a response shows it: in hexadecimal after `0x`.
pub open spec fn hash_text(hash: u64) -> Seq<char> {
    "0x"@ + hex_text(hash as nat)
}

/// Whether `entry` reports the cache entry `info`: its fingerprint, its count and
/// whether it is compiled. The size of the code is not reported.
pub open spec fn reports_entry(entry: CacheEntry, info: (u64, u64, bool)) -> bool {
    &&& entry.hash@ == hash_text(info.0)
    &&& entry.execution_count == info.1
    &&& entry.is_compiled == info.2
    &&& entry.code_size_bytes is None
}

/// The cache as a response reports it: the entries of `info` in their order, and their
/// number.
pub fn cache_response(info: &Vec<(u64, u64, bool)>) -> (response: CacheResponse)
    ensures
        response.total_entries == info@.len(),
        response.entries@.len() == info@.len(),
        forall|i: int|
            0 <= i < info@.len() ==> reports_entry(#[trigger] response.entries@[i], info@[i]),
{
    let mut entries: Vec<CacheEntry> = Vec::new();
    let mut i: usize = 0;
    while i < info.len()
        invariant
            i <= info@.len(),
            entries@.len() == i,
            forall|k: int| 0 <= k < i ==> reports_entry(#[trigger] entries@[k], info@[k]),
        decreases info@.len() - i,
    {
        let mut hash = String::new();
        push_text(&mut hash, "0x");
        push_digits(&mut hash, info[i].0, 16, 0);
        assert(zeros(0 - hex_text(info@[i as int].0 as nat).len()) =~= Seq::<char>::empty());
        assert(hash@ =~= hash_text(info@[i as int].0));
        entries.push(
            CacheEntry {
                hash,
                execution_count: info[i].1,
                is_compiled: info[i].2,
                code_size_bytes: None,
            },
        );
        i = i + 1;
    }
    CacheResponse { total_entries: entries.len(), entries }
}

} // verus!
