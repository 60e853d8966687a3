use cow::paths::{file_path_mime, local_path_for_request, push_path};
use cow::response::MimeType;

#[test]
fn request_path_is_joined_under_the_root() {
    assert_eq!(local_path_for_request("/index.html", "/srv/www"), Some("/srv/www/index.html".to_string()));
    assert_eq!(local_path_for_request("/a/b.css", "/srv/www/"), Some("/srv/www/a/b.css".to_string()));
}

#[test]
fn percent_escapes_are_decoded() {
    assert_eq!(
        local_path_for_request("/my%20file%2Etxt", "/srv"),
        Some("/srv/my file.txt".to_string())
    );
    assert_eq!(local_path_for_request("/caf%C3%A9", "/srv"), Some("/srv/café".to_string()));
}

#[test]
fn malformed_escapes_are_kept() {
    assert_eq!(local_path_for_request("/100%", "/srv"), Some("/srv/100%".to_string()));
    assert_eq!(local_path_for_request("/a%zz", "/srv"), Some("/srv/a%zz".to_string()));
}

#[test]
fn the_root_path_names_the_root_directory() {
    assert_eq!(local_path_for_request("/", "/srv"), Some("/srv/".to_string()));
}

#[test]
fn query_is_cut_off() {
    assert_eq!(local_path_for_request("/a.html?x=1", "/srv"), Some("/srv/a.html".to_string()));
}

#[test]
fn paths_not_starting_with_slash_name_nothing() {
    assert_eq!(local_path_for_request("index.html", "/srv"), None);
    assert_eq!(local_path_for_request("", "/srv"), None);
}

#[test]
fn paths_that_do_not_decode_to_utf8_name_nothing() {
    assert_eq!(local_path_for_request("/%FF%FE", "/srv"), None);
}

#[test]
fn an_absolute_remainder_replaces_the_root() {
    assert_eq!(local_path_for_request("//etc/passwd", "/srv"), Some("/etc/passwd".to_string()));
    assert_eq!(local_path_for_request("/%2Fetc", "/srv"), Some("/etc".to_string()));
}

#[test]
fn pushing_paths() {
    assert_eq!(push_path("/srv", "a"), "/srv/a");
    assert_eq!(push_path("/srv/", "a"), "/srv/a");
    assert_eq!(push_path("", "a"), "a");
    assert_eq!(push_path("/srv", "/etc"), "/etc");
    assert_eq!(push_path("/srv", ""), "/srv/");
}

#[test]
fn media_types_by_extension() {
    assert_eq!(file_path_mime("/srv/index.html"), MimeType::TextHtml);
    assert_eq!(file_path_mime("/srv/site.css"), MimeType::TextCss);
    assert_eq!(file_path_mime("app.js"), MimeType::TextJavascript);
    assert_eq!(file_path_mime("/p/photo.jpg"), MimeType::ImageJpeg);
    assert_eq!(file_path_mime("README.md"), MimeType::TextMarkdown);
    assert_eq!(file_path_mime("i.png"), MimeType::ImagePng);
    assert_eq!(file_path_mime("logo.svg"), MimeType::ImageSvg);
    assert_eq!(file_path_mime("m.wasm"), MimeType::ApplicationWasm);
}

#[test]
fn unknown_or_missing_extensions_are_plain_text() {
    assert_eq!(file_path_mime("/srv/notes"), MimeType::TextPlain);
    assert_eq!(file_path_mime("/srv/.bashrc"), MimeType::TextPlain);
    assert_eq!(file_path_mime("a.tar.gz"), MimeType::TextPlain);
    assert_eq!(file_path_mime("a.HTML"), MimeType::TextPlain);
    assert_eq!(file_path_mime("a.jpeg"), MimeType::TextPlain);
    assert_eq!(file_path_mime(""), MimeType::TextPlain);
    assert_eq!(file_path_mime("/"), MimeType::TextPlain);
    assert_eq!(file_path_mime("/srv/x.html/.."), MimeType::TextPlain);
}

#[test]
fn file_name_ignores_trailing_slashes_and_dots() {
    assert_eq!(file_path_mime("/srv/x.html/"), MimeType::TextHtml);
    assert_eq!(file_path_mime("/srv/x.css/."), MimeType::TextCss);
    assert_eq!(file_path_mime("/srv/.d/a.svg"), MimeType::ImageSvg);
}
