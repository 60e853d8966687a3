use cow::response::{MimeType, ResponseHeader, ResponsePlan};
use cow::static_files::{
    local_path_with_maybe_index, respond_with_file, serve_static, StaticAction, StaticEvent,
    StaticState,
};

fn step(path: &str, query: Option<&str>, state: StaticState, event: StaticEvent) -> (StaticState, StaticAction) {
    serve_static(path, query, "/srv", state, event)
}

fn expect_check(action: &StaticAction) -> String {
    match action {
        StaticAction::CheckDir(p) => p.clone(),
        other => panic!("expected a directory check, got {:?}", other),
    }
}

fn expect_read(action: &StaticAction) -> String {
    match action {
        StaticAction::ReadFile(p) => p.clone(),
        other => panic!("expected a file read, got {:?}", other),
    }
}

fn expect_response(action: StaticAction) -> ResponsePlan {
    match action {
        StaticAction::Respond(r) => r,
        other => panic!("expected a response, got {:?}", other),
    }
}

fn assert_not_found(r: &ResponsePlan) {
    assert_eq!(r.status, 200);
    assert_eq!(r.body, b"not found".to_vec());
}

#[test]
fn a_file_is_served_after_two_checks_and_a_read() {
    let (s, a) = step("/index.html", None, StaticState::Start, StaticEvent::Begin);
    assert_eq!(expect_check(&a), "/srv/index.html");
    let (s, a) = step("/index.html", None, s, StaticEvent::IsDir(false));
    assert_eq!(expect_check(&a), "/srv/index.html");
    let (s, a) = step("/index.html", None, s, StaticEvent::IsDir(false));
    assert_eq!(expect_read(&a), "/srv/index.html");
    let (s, a) = step("/index.html", None, s, StaticEvent::FileRead(Some(b"<h1>".to_vec())));
    assert!(matches!(s, StaticState::Finished));
    let r = expect_response(a);
    assert_eq!(r.status, 200);
    assert_eq!(r.body, b"<h1>".to_vec());
    match &r.headers[..] {
        [ResponseHeader::ContentLength(4), ResponseHeader::ContentType(MimeType::TextHtml), ResponseHeader::Named(k, v)] => {
            assert_eq!(k, "cow");
            assert_eq!(v, "0.0.1");
        }
        other => panic!("unexpected headers {:?}", other),
    }
}

#[test]
fn a_directory_without_slash_is_redirected_with_its_query() {
    let (s, a) = step("/docs", Some("lang=en"), StaticState::Start, StaticEvent::Begin);
    assert_eq!(expect_check(&a), "/srv/docs");
    let (s, a) = step("/docs", Some("lang=en"), s, StaticEvent::IsDir(true));
    assert!(matches!(s, StaticState::Finished));
    let r = expect_response(a);
    assert_eq!(r.status, 302);
    assert!(r.body.is_empty());
    match &r.headers[..] {
        [ResponseHeader::Location(l)] => assert_eq!(l, "/docs/?lang=en"),
        other => panic!("unexpected headers {:?}", other),
    }
}

#[test]
fn a_directory_redirect_without_query() {
    let (s, _) = step("/docs", None, StaticState::Start, StaticEvent::Begin);
    let (_, a) = step("/docs", None, s, StaticEvent::IsDir(true));
    match &expect_response(a).headers[..] {
        [ResponseHeader::Location(l)] => assert_eq!(l, "/docs/"),
        other => panic!("unexpected headers {:?}", other),
    }
}

#[test]
fn a_directory_with_slash_serves_its_index() {
    let (s, a) = step("/docs/", None, StaticState::Start, StaticEvent::Begin);
    assert_eq!(expect_check(&a), "/srv/docs/");
    let (s, a) = step("/docs/", None, s, StaticEvent::IsDir(true));
    assert_eq!(expect_read(&a), "/srv/docs/index.html");
    let (_, a) = step("/docs/", None, s, StaticEvent::FileRead(Some(b"hi".to_vec())));
    let r = expect_response(a);
    match &r.headers[..] {
        [ResponseHeader::ContentLength(2), ResponseHeader::ContentType(MimeType::TextHtml), _] => {}
        other => panic!("unexpected headers {:?}", other),
    }
}

#[test]
fn an_unreadable_file_is_not_found() {
    let (s, _) = step("/gone.txt", None, StaticState::Start, StaticEvent::Begin);
    let (s, _) = step("/gone.txt", None, s, StaticEvent::IsDir(false));
    let (s, _) = step("/gone.txt", None, s, StaticEvent::IsDir(false));
    let (s, a) = step("/gone.txt", None, s, StaticEvent::FileRead(None));
    assert!(matches!(s, StaticState::Finished));
    assert_not_found(&expect_response(a));
}

#[test]
fn a_path_that_names_no_file_is_not_found_at_once() {
    let (s, a) = step("/%FF", None, StaticState::Start, StaticEvent::Begin);
    assert!(matches!(s, StaticState::Finished));
    assert_not_found(&expect_response(a));
    let (s, a) = step("/%FF/", None, StaticState::Start, StaticEvent::Begin);
    assert!(matches!(s, StaticState::Finished));
    assert_not_found(&expect_response(a));
}

#[test]
fn an_unexpected_report_ends_with_not_found() {
    let (s, a) = step("/a", None, StaticState::Start, StaticEvent::FileRead(None));
    assert!(matches!(s, StaticState::Finished));
    assert_not_found(&expect_response(a));
    let (s, a) = step("/a", None, StaticState::Finished, StaticEvent::Begin);
    assert!(matches!(s, StaticState::Finished));
    assert_not_found(&expect_response(a));
}

#[test]
fn every_run_answers_within_four_steps() {
    for answers in [[false, false], [true, true], [false, true], [true, false]] {
        let mut state = StaticState::Start;
        let mut event = StaticEvent::Begin;
        let mut answered = false;
        let mut next_dir = answers.iter();
        for _ in 0..4 {
            let (s, a) = step("/x", None, state, event);
            state = s;
            match a {
                StaticAction::Respond(_) => {
                    answered = true;
                    break;
                }
                StaticAction::CheckDir(_) => event = StaticEvent::IsDir(*next_dir.next().unwrap()),
                StaticAction::ReadFile(_) => event = StaticEvent::FileRead(Some(Vec::new())),
            }
        }
        assert!(answered);
        assert!(matches!(state, StaticState::Finished));
    }
}

#[test]
fn index_file_of_a_directory() {
    assert_eq!(local_path_with_maybe_index("/srv/docs", true), "/srv/docs/index.html");
    assert_eq!(local_path_with_maybe_index("/srv/docs/", true), "/srv/docs/index.html");
    assert_eq!(local_path_with_maybe_index("/srv/a.txt", false), "/srv/a.txt");
}

#[test]
fn file_response_states_length_and_type() {
    let r = respond_with_file("/srv/logo.svg", vec![1, 2, 3]);
    assert_eq!(r.status, 200);
    match &r.headers[..] {
        [ResponseHeader::ContentLength(3), ResponseHeader::ContentType(MimeType::ImageSvg), ResponseHeader::Named(_, _)] => {}
        other => panic!("unexpected headers {:?}", other),
    }
}
