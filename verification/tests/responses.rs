use cow::error::{make_error_response, make_io_error_response, Error, IoErrorKind};
use cow::response::{html_str_to_response, not_found_response, MimeType, ResponseHeader};

#[test]
fn not_found_answer() {
    let r = not_found_response();
    assert_eq!(r.status, 200);
    assert_eq!(r.body, b"not found".to_vec());
    match &r.headers[..] {
        [ResponseHeader::Named(k, v)] => {
            assert_eq!(k, "cow");
            assert_eq!(v, "0.0.1");
        }
        other => panic!("unexpected headers {:?}", other),
    }
}

#[test]
fn html_page_states_its_byte_length() {
    let r = html_str_to_response("<p>caf\u{e9}</p>".to_string(), 404);
    assert_eq!(r.status, 404);
    assert_eq!(r.body, "<p>caf\u{e9}</p>".as_bytes().to_vec());
    match &r.headers[..] {
        [ResponseHeader::ContentLength(12), ResponseHeader::ContentType(MimeType::TextHtml)] => {}
        other => panic!("unexpected headers {:?}", other),
    }
}

#[test]
fn io_errors_are_answered_by_kind() {
    assert_eq!(make_io_error_response(IoErrorKind::NotFound), 404);
    assert_eq!(make_io_error_response(IoErrorKind::Other), 500);
}

#[test]
fn errors_are_answered_with_status_codes() {
    assert_eq!(make_error_response(&Error::Io(IoErrorKind::NotFound, "no file".to_string())), 404);
    assert_eq!(make_error_response(&Error::Io(IoErrorKind::Other, "denied".to_string())), 500);
    assert_eq!(make_error_response(&Error::UrlToPath), 500);
    assert_eq!(make_error_response(&Error::Http("bad header".to_string())), 500);
    assert_eq!(make_error_response(&Error::MarkdownUtf8), 500);
}

#[test]
fn error_messages() {
    assert_eq!(Error::Http(String::new()).message(), "HTTP error");
    assert_eq!(Error::Io(IoErrorKind::Other, String::new()).message(), "I/O error");
    assert_eq!(Error::AddrParse(String::new()).message(), "failed to parse IP address");
    assert_eq!(Error::MarkdownUtf8.message(), "markdown is not UTF-8");
    assert_eq!(
        Error::StripPrefixInDirList(String::new()).message(),
        "failed to strip prefix in directory listing"
    );
    assert_eq!(Error::UrlToPath.message(), "failed to convert URL to local file path");
    assert_eq!(
        Error::WriteInDirList(String::new()).message(),
        "formatting error while creating directory listing"
    );
}

#[test]
fn error_sources() {
    assert_eq!(Error::Http("h".to_string()).source().map(|s| s.as_str()), Some("h"));
    assert_eq!(Error::Io(IoErrorKind::NotFound, "gone".to_string()).source().map(|s| s.as_str()), Some("gone"));
    assert_eq!(Error::AddrParse("a".to_string()).source().map(|s| s.as_str()), Some("a"));
    assert_eq!(Error::StripPrefixInDirList("p".to_string()).source().map(|s| s.as_str()), Some("p"));
    assert_eq!(Error::WriteInDirList("w".to_string()).source().map(|s| s.as_str()), Some("w"));
    assert!(Error::MarkdownUtf8.source().is_none());
    assert!(Error::UrlToPath.source().is_none());
}

#[test]
fn media_type_texts() {
    assert_eq!(MimeType::TextHtml.text(), "text/html");
    assert_eq!(MimeType::TextCss.text(), "text/css");
    assert_eq!(MimeType::TextJavascript.text(), "text/javascript");
    assert_eq!(MimeType::ImageJpeg.text(), "image/jpeg");
    assert_eq!(MimeType::TextMarkdown.text(), "text/markdown; charset=utf-8");
    assert_eq!(MimeType::ImagePng.text(), "image/png");
    assert_eq!(MimeType::ImageSvg.text(), "image/svg+xml");
    assert_eq!(MimeType::ApplicationWasm.text(), "application/wasm");
    assert_eq!(MimeType::TextPlain.text(), "text/plain");
}

#[test]
fn media_type_texts_agree_with_the_mime_crate() {
    for m in [MimeType::TextHtml, MimeType::TextCss, MimeType::TextJavascript, MimeType::ImageJpeg,
              MimeType::ImagePng, MimeType::ImageSvg, MimeType::TextPlain] {
        let parsed: mime::Mime = m.text().parse().unwrap();
        assert_eq!(parsed.as_ref(), m.text());
    }
    let markdown: mime::Mime = "text/markdown; charset=UTF-8".parse().unwrap();
    assert_eq!(markdown.as_ref(), MimeType::TextMarkdown.text());
    let wasm: mime::Mime = "application/wasm".parse().unwrap();
    assert_eq!(wasm.as_ref(), MimeType::ApplicationWasm.text());
    assert_eq!(mime::TEXT_HTML.as_ref(), MimeType::TextHtml.text());
    assert_eq!(mime::IMAGE_SVG.as_ref(), MimeType::ImageSvg.text());
}
