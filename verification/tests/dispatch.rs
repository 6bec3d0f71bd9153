use glote::{
    get_status_text, run_handlers, u64_to_string, Action, Cors, Glote, Middleware, Request,
    Response,
};

fn lines(v: &[&str]) -> Vec<String> {
    v.iter().map(|s| s.to_string()).collect()
}

fn plain_request(raw_lines: &[&str]) -> Request {
    Request::new(&lines(raw_lines))
}

fn output_text(res: &Response) -> String {
    String::from_utf8(res.output().clone()).unwrap()
}

fn count_heads(text: &str) -> usize {
    text.matches("HTTP/1.1").count()
}

#[test]
fn status_text_known_and_unknown() {
    assert_eq!(get_status_text(200), "OK");
    assert_eq!(get_status_text(201), "Created");
    assert_eq!(get_status_text(204), "No Content");
    assert_eq!(get_status_text(301), "Moved Permanently");
    assert_eq!(get_status_text(302), "Found");
    assert_eq!(get_status_text(400), "Bad Request");
    assert_eq!(get_status_text(401), "Unauthorized");
    assert_eq!(get_status_text(403), "Forbidden");
    assert_eq!(get_status_text(404), "Not Found");
    assert_eq!(get_status_text(405), "Method Not Allowed");
    assert_eq!(get_status_text(500), "Internal Server Error");
    assert_eq!(get_status_text(502), "Bad Gateway");
    assert_eq!(get_status_text(503), "Service Unavailable");
    assert_eq!(get_status_text(418), "Unknown");
}

#[test]
fn decimal_rendering() {
    assert_eq!(u64_to_string(0), "0");
    assert_eq!(u64_to_string(7), "7");
    assert_eq!(u64_to_string(1234567890), "1234567890");
}

#[test]
fn send_writes_head_and_body_once() {
    let mut res = Response::new();
    res.send("okay");
    assert!(res.is_stopped());
    let text = output_text(&res);
    assert_eq!(
        text,
        "HTTP/1.1 200 OK\r\nContent-Type: text/html; charset=UTF-8\r\nContent-Length: 4\r\n\r\nokay"
    );
}

#[test]
fn second_send_is_a_no_op() {
    let mut res = Response::new();
    res.send("first");
    let after_first = res.output().clone();
    res.send("second");
    assert_eq!(res.output(), &after_first);
}

#[test]
fn status_code_reaches_the_status_line() {
    let mut res = Response::new();
    res.status(404);
    res.send("gone");
    assert!(output_text(&res).starts_with("HTTP/1.1 404 Not Found\r\n"));
}

#[test]
fn json_sets_json_content_type() {
    let mut res = Response::new();
    res.json("{\"a\":1}");
    let text = output_text(&res);
    assert!(text.contains("Content-Type: application/json; charset=UTF-8"));
    assert!(text.ends_with("{\"a\":1}"));
}

#[test]
fn send_bytes_uses_given_content_type_and_length() {
    let mut res = Response::new();
    res.send_bytes(&[1u8, 2, 3], "application/octet-stream");
    let out = res.output().clone();
    let text = String::from_utf8_lossy(&out).into_owned();
    assert!(text.contains("Content-Type: application/octet-stream"));
    assert!(text.contains("Content-Length: 3"));
    assert_eq!(&out[out.len() - 3..], &[1u8, 2, 3]);
}

#[test]
fn headers_set_and_remove() {
    let mut res = Response::new();
    res.set_header("a", "1");
    res.set_header("a", "2");
    assert_eq!(res.header("a").unwrap(), "2");
    res.remove_header("a");
    assert!(res.header("a").is_none());
}

#[test]
fn short_circuit_blocks_every_later_stage() {
    let global = vec![Middleware::Script {
        pre: vec![Action::Send("stopped here".to_string())],
        calls_next: 0,
        post: vec![],
    }];
    let route_mws = vec![Middleware::Script {
        pre: vec![Action::SetHeader("x-later-stage".to_string(), "ran".to_string())],
        calls_next: 1,
        post: vec![],
    }];
    let handler = vec![Action::SetHeader("x-handler".to_string(), "ran".to_string())];
    let req = plain_request(&["GET / HTTP/1.1"]);
    let mut res = Response::new();
    run_handlers(&global, &route_mws, &handler, &req, &mut res);
    assert!(res.header("x-later-stage").is_none());
    assert!(res.header("x-handler").is_none());
    let text = output_text(&res);
    assert!(text.ends_with("stopped here"));
    assert_eq!(count_heads(&text), 1);
}

#[test]
fn continuation_called_twice_writes_once() {
    let global = vec![Middleware::Script { pre: vec![], calls_next: 2, post: vec![] }];
    let route_mws: Vec<Middleware> = vec![];
    let handler = vec![Action::Send("body".to_string())];
    let req = plain_request(&["GET / HTTP/1.1"]);
    let mut res = Response::new();
    run_handlers(&global, &route_mws, &handler, &req, &mut res);
    assert!(res.is_stopped());
    assert_eq!(count_heads(&output_text(&res)), 1);
}

#[test]
fn post_actions_still_run_after_handler_wrote() {
    let global = vec![Middleware::Script {
        pre: vec![],
        calls_next: 1,
        post: vec![Action::SetHeader("x-timing".to_string(), "done".to_string())],
    }];
    let handler = vec![Action::Send("done".to_string())];
    let req = plain_request(&["GET / HTTP/1.1"]);
    let mut res = Response::new();
    run_handlers(&global, &vec![], &handler, &req, &mut res);
    assert_eq!(res.header("x-timing").unwrap(), "done");
    assert_eq!(count_heads(&output_text(&res)), 1);
}

#[test]
fn cors_rejects_unlisted_origin() {
    let cors = Cors::new(&["http://a.test"]);
    let req = plain_request(&["GET / HTTP/1.1", "origin: http://b.test"]);
    let mut res = Response::new();
    let proceed = cors.cors_middleware(&req, &mut res);
    assert!(!proceed);
    assert!(res.is_stopped());
    assert!(res.header("Access-Control-Allow-Origin").is_none());
    assert!(res.header("Access-Control-Allow-Methods").is_none());
    let text = output_text(&res);
    assert!(text.starts_with("HTTP/1.1 401 Unauthorized\r\n"));
    assert!(text.ends_with("Unauthorized origin"));
}

#[test]
fn cors_admits_listed_origin_and_echoes_it() {
    let cors = Cors::new(&["http://a.test"]);
    let req = plain_request(&["GET / HTTP/1.1", "origin: http://a.test"]);
    let mut res = Response::new();
    let proceed = cors.cors_middleware(&req, &mut res);
    assert!(proceed);
    assert!(!res.is_stopped());
    assert_eq!(res.header("Access-Control-Allow-Origin").unwrap(), "http://a.test");
    assert_eq!(res.header("Access-Control-Allow-Methods").unwrap(), "GET, POST, OPTIONS");
}

#[test]
fn cors_wildcard_admits_everything() {
    let cors = Cors::new(&["*"]);
    let req = plain_request(&["GET / HTTP/1.1", "origin: http://anything.test"]);
    let mut res = Response::new();
    assert!(cors.cors_middleware(&req, &mut res));
    assert_eq!(res.header("Access-Control-Allow-Origin").unwrap(), "*");
}

#[test]
fn cors_in_chain_short_circuits_handler() {
    let global = vec![Middleware::Cors(Cors::new(&["http://a.test"]))];
    let handler = vec![Action::Send("secret".to_string())];
    let req = plain_request(&["GET / HTTP/1.1", "origin: http://b.test"]);
    let mut res = Response::new();
    run_handlers(&global, &vec![], &handler, &req, &mut res);
    let text = output_text(&res);
    assert!(text.starts_with("HTTP/1.1 401"));
    assert!(!text.contains("secret"));
}

#[test]
fn server_dispatches_to_first_matching_route() {
    let mut server = Glote::new();
    server.get("/hello/:name", vec![
        Action::SetHeader("x-route".to_string(), "first".to_string()),
        Action::Send("hi".to_string()),
    ]);
    server.get("/hello/:other", vec![Action::Send("second".to_string())]);
    let req = plain_request(&["GET /hello/bob HTTP/1.1"]);
    let mut res = Response::new();
    assert!(server.handle_request(&req, &mut res));
    assert_eq!(res.header("x-route").unwrap(), "first");
    assert!(output_text(&res).ends_with("hi"));
}

#[test]
fn server_miss_leaves_response_untouched() {
    let mut server = Glote::new();
    server.get("/a", vec![Action::Send("a".to_string())]);
    let req = plain_request(&["POST /a HTTP/1.1"]);
    let mut res = Response::new();
    assert!(!server.handle_request(&req, &mut res));
    assert!(!res.is_stopped());
    assert!(res.output().is_empty());
}

#[test]
fn server_runs_global_before_route_middleware() {
    let mut server = Glote::new();
    server.use_middleware(Middleware::Script {
        pre: vec![Action::SetHeader("x-order".to_string(), "global".to_string())],
        calls_next: 1,
        post: vec![],
    });
    server.get_with_middleware(
        "/x",
        vec![Middleware::Script {
            pre: vec![Action::SetHeader("x-order".to_string(), "route".to_string())],
            calls_next: 1,
            post: vec![],
        }],
        vec![Action::Send("x".to_string())],
    );
    let req = plain_request(&["GET /x HTTP/1.1"]);
    let mut res = Response::new();
    assert!(server.handle_request(&req, &mut res));
    assert_eq!(res.header("x-order").unwrap(), "route");
}

#[test]
fn registration_covers_all_methods() {
    let mut server = Glote::new();
    server.post("/p", vec![Action::Send("p".to_string())]);
    server.put("/u", vec![Action::Send("u".to_string())]);
    server.delete("/d/:id", vec![Action::Send("d".to_string())]);
    server.post_with_middleware("/pm", vec![], vec![Action::Send("pm".to_string())]);
    server.put_with_middleware("/um", vec![], vec![Action::Send("um".to_string())]);
    server.delete_with_middleware("/dm", vec![], vec![Action::Send("dm".to_string())]);
    let mut res = Response::new();
    assert!(server.handle_request(&plain_request(&["PUT /u HTTP/1.1"]), &mut res));
    assert!(output_text(&res).ends_with("u"));
    let mut res2 = Response::new();
    assert!(server.handle_request(&plain_request(&["DELETE /d/9 HTTP/1.1"]), &mut res2));
    assert!(output_text(&res2).ends_with("d"));
}

#[test]
fn static_path_resolution() {
    assert_eq!(glote::static_file_path("public", "/img/x.png"), "public/img/x.png");
    assert_eq!(glote::static_file_path("public/", "/img/x.png"), "public/img/x.png");
    assert_eq!(glote::static_file_path("public", "/"), "public/index.html");
    assert_eq!(glote::static_file_path("", "/x.css"), "x.css");
}

#[test]
fn serve_static_guesses_content_type_from_extension() {
    let mut res = Response::new();
    glote::serve_static(&mut res, "public/index.html", b"<h1>hi</h1>");
    let text = output_text(&res);
    assert!(text.starts_with("HTTP/1.1 200 OK\r\n"));
    assert!(text.contains("Content-Type: text/html"));
    assert!(text.ends_with("<h1>hi</h1>"));
    let mut res2 = Response::new();
    glote::serve_static(&mut res2, "notes.unknownext", b"x");
    assert!(output_text(&res2).contains("Content-Type: text/plain"));
}

#[test]
fn not_found_fallback() {
    let mut res = Response::new();
    glote::respond_not_found(&mut res);
    let text = output_text(&res);
    assert!(text.starts_with("HTTP/1.1 404 Not Found\r\n"));
    assert!(text.ends_with("404 Not Found"));
}

#[test]
fn raw_bytes_to_response_end_to_end() {
    let mut server = Glote::new();
    server.get("/hello/:name", vec![Action::Send("hello there".to_string())]);
    let raw = b"GET /hello/world?q=1\r\nhost: x\r\n\r\n";
    let req = glote::parse_raw_request(raw).unwrap();
    let mut res = Response::new();
    assert!(server.handle_request(&req, &mut res));
    let text = output_text(&res);
    assert!(text.starts_with("HTTP/1.1 200 OK\r\n"));
    assert!(text.ends_with("hello there"));
}
