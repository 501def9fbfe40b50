use pku3b::mime::get_mime_type;
use pku3b::multipart::MultipartBuilder;
use pku3b::syllabus::status_is_full;
use pku3b::uri::convert_uri;

#[test]
fn test_get_mime_type() {
    assert_eq!(get_mime_type("html"), "text/html");
    assert_eq!(get_mime_type("png"), "image/png");
    assert_eq!(get_mime_type("mp3"), "audio/mpeg");
    assert_eq!(get_mime_type("unknown"), "application/octet-stream");
}

#[test]
fn test_status_is_full() {
    assert_eq!(status_is_full("30 /25 ").unwrap(), false);
    assert_eq!(status_is_full(" 30/ 30").unwrap(), true);
    assert_eq!(status_is_full("30 / 35 ").unwrap(), true);
    assert!(status_is_full("invalid").is_err());
}

#[test]
fn test_convert_uri() {
    let uri = "/path/to/resource";
    let expected = "https://course.pku.edu.cn/path/to/resource";
    let result = convert_uri(uri).unwrap();
    assert_eq!(result, expected);

    let uri = "http://example.com/path/to/resource";
    let expected = "http://example.com/path/to/resource";
    let result = convert_uri(uri).unwrap();
    assert_eq!(result, expected);

    let uri = "https://example.com/path/to/resource";
    let expected = "https://example.com/path/to/resource";
    let result = convert_uri(uri).unwrap();
    assert_eq!(result, expected);
}

#[test]
fn test_multipart_builder() {
    let file_content = b"File content";

    let builder = MultipartBuilder::new()
        .add_field("field1", b"Hello, world!")
        .add_file("field2", "file.txt", "text/plain", file_content);

    let body = builder.build();
    let body_str = String::from_utf8(body.to_vec()).unwrap();

    assert!(body_str.contains("Content-Disposition: form-data; name=\"field1\""));
    assert!(body_str.contains("Hello, world!"));
    assert!(
        body_str.contains("Content-Disposition: form-data; name=\"field2\"; filename=\"file.txt\"")
    );
    assert!(body_str.contains("Content-Type: text/plain"));
    assert!(body_str.contains("File content"));
}
