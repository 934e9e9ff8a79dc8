use minihttp::pool::ThreadPool;
use minihttp::request::{declared_body_length, is_complete_head, HttpRequest, ParseError};
use minihttp::router::{
    file_response, handle_request, plan_response, route_of, HandleError, Plan, Route, ServeError,
};

fn ready_bytes(r: Result<Plan, HandleError>) -> Vec<u8> {
    match r {
        Ok(Plan::Ready(b)) => b,
        _ => panic!("expected a finished response"),
    }
}

#[test]
fn root_path_gets_200_with_no_body() {
    let r = handle_request(&b"GET / HTTP/1.1\r\n\r\n".to_vec(), false);
    assert_eq!(ready_bytes(r), b"HTTP/1.1 200 OK\r\n\r\n".to_vec());
}

#[test]
fn echo_path_echoes_the_suffix() {
    let r = handle_request(&b"GET /echo/abc123 HTTP/1.1\r\n\r\n".to_vec(), false);
    assert_eq!(
        ready_bytes(r),
        b"HTTP/1.1 200 OK\r\nContent-Type: text/plain\r\nContent-Length: 6\r\n\r\nabc123".to_vec()
    );
}

#[test]
fn user_agent_path_echoes_the_header() {
    let r = handle_request(
        &b"GET /user-agent HTTP/1.1\r\nUser-Agent: test-client/1.0\r\n\r\n".to_vec(),
        false,
    );
    assert_eq!(
        ready_bytes(r),
        b"HTTP/1.1 200 OK\r\nContent-Type: text/plain\r\nContent-Length: 15\r\n\r\ntest-client/1.0"
            .to_vec()
    );
}

#[test]
fn user_agent_path_with_no_header_echoes_empty() {
    let r = handle_request(&b"GET /user-agent HTTP/1.1\r\n\r\n".to_vec(), false);
    assert_eq!(
        ready_bytes(r),
        b"HTTP/1.1 200 OK\r\nContent-Type: text/plain\r\nContent-Length: 0\r\n\r\n".to_vec()
    );
}

#[test]
fn unmatched_path_gets_404() {
    let r = handle_request(&b"GET /anything-unmatched HTTP/1.1\r\n\r\n".to_vec(), true);
    assert_eq!(ready_bytes(r), b"HTTP/1.1 404 Not Found\r\n\r\n".to_vec());
}

#[test]
fn files_path_asks_for_the_file() {
    let r = handle_request(&b"GET /files/foo.txt HTTP/1.1\r\n\r\n".to_vec(), true);
    match r {
        Ok(Plan::NeedFile(name)) => assert_eq!(name, b"foo.txt".to_vec()),
        _ => panic!("expected a file to be asked for"),
    }
}

#[test]
fn present_file_becomes_octet_stream_200() {
    let r = file_response(Some(b"hello".to_vec()));
    assert_eq!(
        r,
        b"HTTP/1.1 200 OK\r\nContent-Type: application/octet-stream\r\nContent-Length: 5\r\n\r\nhello"
            .to_vec()
    );
}

#[test]
fn absent_file_becomes_404_with_empty_body() {
    let r = file_response(None);
    assert_eq!(r, b"HTTP/1.1 404 Not Found\r\n\r\n".to_vec());
}

#[test]
fn files_path_without_directory_is_a_configuration_failure() {
    let r = handle_request(&b"GET /files/foo.txt HTTP/1.1\r\n\r\n".to_vec(), false);
    match r {
        Err(HandleError::Serve(ServeError::MissingDirectory)) => {}
        _ => panic!("expected the missing-directory failure"),
    }
}

#[test]
fn parse_failures_surface_from_handling() {
    let r = handle_request(&b"bad\r\n\r\n".to_vec(), true);
    match r {
        Err(HandleError::Parse(ParseError::MalformedRequestLine)) => {}
        _ => panic!("expected a parse failure"),
    }
}

#[test]
fn route_precedence_is_fixed() {
    assert_eq!(route_of(&b"/".to_vec()), Route::Root);
    assert_eq!(route_of(&b"/echo/x".to_vec()), Route::Echo);
    assert_eq!(route_of(&b"/echo/".to_vec()), Route::Echo);
    assert_eq!(route_of(&b"/user-agent".to_vec()), Route::UserAgent);
    assert_eq!(route_of(&b"/user-agent-like".to_vec()), Route::UserAgent);
    assert_eq!(route_of(&b"/files/a".to_vec()), Route::Files);
    assert_eq!(route_of(&b"/echo".to_vec()), Route::NotFound);
    assert_eq!(route_of(&b"/filesystem".to_vec()), Route::NotFound);
    assert_eq!(route_of(&b"".to_vec()), Route::NotFound);
}

#[test]
fn plan_is_a_function_of_the_request_alone() {
    let bad = HttpRequest::new(&b"bad\r\n\r\n".to_vec());
    assert!(bad.is_err());
    let req = HttpRequest::new(&b"GET /echo/hi HTTP/1.1\r\n\r\n".to_vec()).unwrap();
    let r = plan_response(&req, false);
    match r {
        Ok(Plan::Ready(b)) => assert_eq!(
            b,
            b"HTTP/1.1 200 OK\r\nContent-Type: text/plain\r\nContent-Length: 2\r\n\r\nhi".to_vec()
        ),
        _ => panic!("expected a finished response"),
    }
}

#[test]
fn declared_body_length_reads_the_head_alone() {
    let head = b"POST /submit HTTP/1.1\r\nContent-Length: 11\r\n\r\n".to_vec();
    assert_eq!(declared_body_length(&head), Ok(11));
    let head = b"GET / HTTP/1.1\r\n\r\n".to_vec();
    assert_eq!(declared_body_length(&head), Ok(0));
    let head = b"nope\r\n\r\n".to_vec();
    assert_eq!(
        declared_body_length(&head),
        Err(ParseError::MalformedRequestLine)
    );
}

#[test]
fn complete_heads_are_recognized() {
    assert!(is_complete_head(
        &b"POST /submit HTTP/1.1\r\nContent-Length: 5\r\n\r\n".to_vec()
    ));
    assert!(is_complete_head(&b"GET / HTTP/1.1\r\n\r\n".to_vec()));
    // body bytes after the head mean the buffer is more than a head
    assert!(!is_complete_head(
        &b"POST /submit HTTP/1.1\r\nContent-Length: 5\r\n\r\nhello".to_vec()
    ));
    // an unterminated header block is not a complete head
    assert!(!is_complete_head(&b"GET / HTTP/1.1\r\n".to_vec()));
    assert!(!is_complete_head(&b"GET / HTTP/1.1\r\n\r".to_vec()));
    assert!(!is_complete_head(&b"bad\r\n\r\n".to_vec()));
}

#[test]
fn pool_hands_tasks_out_in_submission_order_exactly_once() {
    let mut pool: ThreadPool<u64> = ThreadPool::new(4);
    assert_eq!(pool.worker_count(), 4);
    assert_eq!(pool.pending_len(), 0);
    pool.execute(10);
    pool.execute(20);
    pool.execute(30);
    assert_eq!(pool.pending_len(), 3);
    assert_eq!(pool.take_task(), Some(10));
    assert_eq!(pool.take_task(), Some(20));
    pool.execute(40);
    assert_eq!(pool.take_task(), Some(30));
    assert_eq!(pool.take_task(), Some(40));
    assert_eq!(pool.take_task(), None);
}

#[test]
fn a_failed_task_does_not_disturb_the_next_one() {
    // The first submitted request is malformed and its handling fails; the
    // pool still hands out the second, and handling it afresh succeeds.
    let mut pool: ThreadPool<Vec<u8>> = ThreadPool::new(1);
    pool.execute(b"bad\r\n\r\n".to_vec());
    pool.execute(b"GET /echo/ok HTTP/1.1\r\n\r\n".to_vec());
    let first = pool.take_task().unwrap();
    assert!(handle_request(&first, false).is_err());
    let second = pool.take_task().unwrap();
    assert_eq!(
        ready_bytes(handle_request(&second, false)),
        b"HTTP/1.1 200 OK\r\nContent-Type: text/plain\r\nContent-Length: 2\r\n\r\nok".to_vec()
    );
}
