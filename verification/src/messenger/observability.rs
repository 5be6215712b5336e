//! Plain HTTP answers for health, readiness and metrics.

use crate::distributed::{has_prefix, starts_with};
use crate::text::{concat2, decimal, decimal_string};
use vstd::prelude::*;
use vstd::utf8::encode_utf8;

verus! {

/// What the scrape of the metrics gave: nothing where there are no metrics,
/// the text, or why it could not be rendered.
pub type Scrape = Option<Result<String, String>>;

/// Status line and body of the answer to a request.
pub open spec fn answer(req: Seq<char>, ready: bool, metrics: Scrape) -> (Seq<char>, Seq<char>) {
    if starts_with(req, "GET /metrics"@) {
        match metrics {
            None => ("501 Not Implemented"@, "metrics feature disabled"@),
            Some(Ok(text)) => ("200 OK"@, text@),
            Some(Err(e)) => ("500 Internal Server Error"@, "render error: "@ + e@),
        }
    } else if starts_with(req, "GET /ready"@) {
        if ready {
            ("200 OK"@, "ready"@)
        } else {
            ("503 Service Unavailable"@, "not ready"@)
        }
    } else if starts_with(req, "GET /health"@) {
        ("200 OK"@, "ok"@)
    } else {
        ("404 Not Found"@, "not found"@)
    }
}

/// The whole answer as text.
pub open spec fn response_text(status: Seq<char>, body: Seq<char>) -> Seq<char> {
    "HTTP/1.1 "@ + status
        + "\r\nContent-Type: text/plain; version=0.0.4; charset=utf-8\r\nContent-Length: "@
        + decimal(encode_utf8(body).len()) + "\r\nConnection: close\r\n\r\n"@ + body
}

/// Answers a request.
pub fn observability_response(req: &str, ready: bool, metrics: Scrape) -> (s: String)
    ensures
        s@ == response_text(answer(req@, ready, metrics).0, answer(req@, ready, metrics).1),
{
    let (status, body): (&str, String) = if has_prefix(req, "GET /metrics") {
        match metrics {
            None => ("501 Not Implemented", "metrics feature disabled".to_string()),
            Some(Ok(text)) => ("200 OK", text),
            Some(Err(e)) => ("500 Internal Server Error", concat2("render error: ", e.as_str())),
        }
    } else if has_prefix(req, "GET /ready") {
        if ready {
            ("200 OK", "ready".to_string())
        } else {
            ("503 Service Unavailable", "not ready".to_string())
        }
    } else if has_prefix(req, "GET /health") {
        ("200 OK", "ok".to_string())
    } else {
        ("404 Not Found", "not found".to_string())
    };
    let mut s = concat2("HTTP/1.1 ", status);
    s.push_str("\r\nContent-Type: text/plain; version=0.0.4; charset=utf-8\r\nContent-Length: ");
    let bytes = body.as_str().as_bytes();
    let n = decimal_string(bytes.len() as u64);
    s.push_str(n.as_str());
    s.push_str("\r\nConnection: close\r\n\r\n");
    s.push_str(body.as_str());
    assert(s@ =~= response_text(
        answer(req@, ready, metrics).0,
        answer(req@, ready, metrics).1,
    ));
    s
}

/// A node that is ready says so, and one that is not says that it is not; it is
/// healthy either way. Metrics are given where there are any, and a failure to
/// render them is one. Nothing else is to be found.
pub proof fn law_status_tells_the_state(req: Seq<char>, ready: bool, metrics: Scrape)
    ensures
        ({
            let (status, body) = answer(req, ready, metrics);
            let asks_metrics = starts_with(req, "GET /metrics"@);
            let asks_ready = starts_with(req, "GET /ready"@);
            let asks_health = starts_with(req, "GET /health"@);
            &&& asks_ready ==> (status == "200 OK"@ <==> ready)
            &&& asks_health ==> status == "200 OK"@
            &&& asks_metrics ==> (status == "200 OK"@ <==> metrics is Some && metrics->0 is Ok)
            &&& asks_metrics && status == "200 OK"@ ==> body == metrics->0->Ok_0@
            &&& !asks_metrics && !asks_ready && !asks_health ==> status == "404 Not Found"@
        }),
{
    reveal_strlit("GET /metrics");
    reveal_strlit("GET /ready");
    reveal_strlit("GET /health");
    reveal_strlit("200 OK");
    reveal_strlit("404 Not Found");
    reveal_strlit("501 Not Implemented");
    reveal_strlit("500 Internal Server Error");
    reveal_strlit("503 Service Unavailable");
    let m = "GET /metrics"@;
    let r = "GET /ready"@;
    let h = "GET /health"@;
    if starts_with(req, r) {
        assert(req[5] == req.take(10)[5]);
        assert(req[5] == 'r');
        if starts_with(req, m) {
            assert(req[5] == req.take(12)[5]);
        }
    }
    if starts_with(req, h) {
        assert(req[5] == req.take(11)[5]);
        assert(req[5] == 'h');
        if starts_with(req, m) {
            assert(req[5] == req.take(12)[5]);
        }
        if starts_with(req, r) {
            assert(req[5] == req.take(10)[5]);
        }
    }
    assert("200 OK"@[0] == '2');
    assert("501 Not Implemented"@[0] == '5');
    assert("500 Internal Server Error"@[0] == '5');
    assert("503 Service Unavailable"@[0] == '5');
    assert("404 Not Found"@[0] == '4');
}

} // verus!
