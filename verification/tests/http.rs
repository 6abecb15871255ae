use dirwatch::http::{get_mime_type, plan_file_response, HttpHeaders, HttpResponse};

#[test]
fn headers_store_and_replace_values() {
    let mut h = HttpHeaders::new();
    assert!(h.get("content-type").is_none());
    h.set("content-type", "text/html");
    h.set("cache-control", "no-cache");
    assert_eq!(h.get("content-type").unwrap(), "text/html");
    assert_eq!(h.get("cache-control").unwrap(), "no-cache");
    h.set("content-type", "text/plain");
    assert_eq!(h.get("content-type").unwrap(), "text/plain");
    assert_eq!(h.len(), 2);
    assert!(h.get("connection").is_none());
}

#[test]
fn response_starts_as_empty_200() {
    let res = HttpResponse::new();
    assert_eq!(res.status, 200);
    assert!(res.contents.is_empty());
    assert_eq!(res.headers.len(), 0);
}

#[test]
fn response_builders_set_fields() {
    let mut res = HttpResponse::new();
    res.set_status(206);
    assert_eq!(res.status, 206);
    res.set_content(b"hello ");
    res.set_content(b"world");
    assert_eq!(res.contents, b"hello world".to_vec());
    res.set_header("accept-ranges", "bytes");
    assert_eq!(res.headers.get("accept-ranges").unwrap(), "bytes");
}

#[test]
fn not_found_sets_status_body_and_type() {
    let mut res = HttpResponse::new();
    res.set_404();
    assert_eq!(res.status, 404);
    assert_eq!(res.contents, b"404 Not Found".to_vec());
    assert_eq!(res.headers.get("content-type").unwrap(), "text/plain");
}

#[test]
fn status_text_of_served_statuses() {
    let mut res = HttpResponse::new();
    assert_eq!(res.status_text(), "Ok");
    res.set_status(206);
    assert_eq!(res.status_text(), "Partial Content");
    res.set_status(404);
    assert_eq!(res.status_text(), "Not Found");
}

#[test]
fn mime_types_from_extensions() {
    assert_eq!(get_mime_type(b"index.html"), "text/html");
    assert_eq!(get_mime_type(b"/a/b/style.css"), "text/css");
    assert_eq!(get_mime_type(b"app.js"), "application/javascript");
    assert_eq!(get_mime_type(b"photo.JPG"), "image/jpeg");
    assert_eq!(get_mime_type(b"photo.jpeg"), "image/jpeg");
    assert_eq!(get_mime_type(b"anim.webp"), "image/webp");
    assert_eq!(get_mime_type(b"movie.mp4"), "video/mp4");
}

#[test]
fn mime_type_defaults_to_octet_stream() {
    assert_eq!(get_mime_type(b"noextension"), "application/octet-stream");
    assert_eq!(get_mime_type(b"dir.d/file"), "application/octet-stream");
    assert_eq!(get_mime_type(b"archive.unknown"), "application/octet-stream");
    assert_eq!(get_mime_type(b""), "application/octet-stream");
}

#[test]
fn small_plain_file_is_served_whole() {
    let p = plan_file_response(None, 5000, false);
    assert!(!p.partial);
    assert_eq!((p.status, p.start, p.end), (200, 0, 5000));
}

#[test]
fn oversized_file_is_clipped_to_partial_content() {
    let p = plan_file_response(None, 25000000, false);
    assert!(p.partial);
    assert_eq!((p.status, p.start, p.end), (206, 0, 10000000));
}

#[test]
fn requested_range_is_honored() {
    let p = plan_file_response(Some((10, 20)), 100, false);
    assert_eq!((p.status, p.start, p.end, p.partial), (206, 10, 20, true));
}

#[test]
fn open_ended_range_runs_to_file_end() {
    let p = plan_file_response(Some((40, 0)), 100, false);
    assert_eq!((p.status, p.start, p.end), (206, 40, 100));
}

#[test]
fn images_are_never_clipped() {
    let p = plan_file_response(None, 25000000, true);
    assert!(!p.partial);
    assert_eq!((p.status, p.start, p.end), (200, 0, 25000000));
}
