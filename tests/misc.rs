use std::hash::{Hash, Hasher};
use pku3b::video::video_id;
use pku3b::crawl::assignment_id;
use pku3b::course::CourseMeta;
use pku3b::portal::course_key;
use pku3b::video::{playlist_url_of, ResolveError};
use pku3b::config::{Config, ConfigAttrs};
use pku3b::multipart::MultipartBuilder;
use pku3b::qs::{split_chars, Query, QueryError};
use pku3b::syllabus::{status_is_full, StatusError, SyllabusBaseCourseData};
use pku3b::uri::{convert_uri, UriError};

#[test]
fn status_errors() {
    assert_eq!(status_is_full("1/2/3"), Err(StatusError::Format));
    assert_eq!(status_is_full("a/1"), Err(StatusError::Number));
    assert_eq!(status_is_full("1/"), Err(StatusError::Number));
    assert_eq!(status_is_full("+3/\u{3000}4"), Ok(true));
    let c = SyllabusBaseCourseData {
        name: "n".into(),
        category: "c".into(),
        score: "2".into(),
        hours_per_week: "2".into(),
        teacher: "t".into(),
        class_id: "1".into(),
        department: "d".into(),
        classroom: "r".into(),
        custom_n_or_np: "".into(),
        status: "10/9".into(),
    };
    assert_eq!(c.is_full(), Ok(false));
}

#[test]
fn query_values() {
    let q = Query::parse("https://h/p?a=1&bb=22&a=3").ok().unwrap();
    assert_eq!(q.get("a"), Some("1"));
    assert_eq!(q.get("bb"), Some("22"));
    assert_eq!(q.get("c"), None);
    let q = Query::parse("https://h/p").ok().unwrap();
    assert_eq!(q.get("a"), None);
    assert_eq!(Query::parse("http://[x").err(), Some(QueryError::InvalidUri));
    assert_eq!(split_chars("a&&b", '&'), vec!["a", "", "b"]);
    assert_eq!(split_chars("", '&'), vec![""]);
}

#[test]
fn invalid_uri_is_refused() {
    assert_eq!(convert_uri("http://[x").err(), Some(UriError::InvalidUri));
    assert_eq!(convert_uri("/a?b=c").unwrap(), "https://course.pku.edu.cn/a?b=c");
}

#[test]
fn multipart_body_exact() {
    let b = MultipartBuilder::with_boundary_token("XYZ")
        .add_field("f", b"v")
        .add_file("g", "n.txt", "text/plain", b"data");
    assert_eq!(b.boundary(), "----WebKitFormBoundaryXYZ");
    let body = String::from_utf8(b.build()).unwrap();
    let expected = "------WebKitFormBoundaryXYZ\r\nContent-Disposition: form-data; name=\"f\"\r\n\r\nv\r\n\
------WebKitFormBoundaryXYZ\r\nContent-Disposition: form-data; name=\"g\"; filename=\"n.txt\"\r\nContent-Type: text/plain\r\n\r\ndata\r\n\
------WebKitFormBoundaryXYZ--\r\n";
    assert_eq!(body, expected);
}

#[test]
fn multipart_boundary_is_random() {
    let a = MultipartBuilder::new();
    let b = MultipartBuilder::new();
    assert_eq!(a.boundary().len(), "----WebKitFormBoundary".len() + 16);
    assert!(a.boundary().starts_with("----WebKitFormBoundary"));
    assert!(a.boundary()[22..].chars().all(|c| c.is_ascii_alphanumeric()));
    assert_ne!(a.boundary(), b.boundary());
}

#[test]
fn config_update() {
    let mut c = Config {
        username: "u".into(),
        password: "p".into(),
        ttshitu: None,
        bark: None,
        auto_supplement: None,
    };
    c.update(ConfigAttrs::TTShiTuPassword, "tp".into());
    let t = c.ttshitu.as_ref().unwrap();
    assert_eq!((t.username.as_str(), t.password.as_str()), ("", "tp"));
    c.update(ConfigAttrs::TTShiTuUsername, "tu".into());
    let t = c.ttshitu.as_ref().unwrap();
    assert_eq!((t.username.as_str(), t.password.as_str()), ("tu", "tp"));
    c.update(ConfigAttrs::BarkToken, "bt".into());
    assert_eq!(c.bark.as_ref().unwrap().token, "bt");
    c.update(ConfigAttrs::Username, "u2".into());
    c.update(ConfigAttrs::Password, "p2".into());
    assert_eq!((c.username.as_str(), c.password.as_str()), ("u2", "p2"));
}

#[test]
fn course_keys_from_links() {
    assert_eq!(
        course_key("javascript:launch('/x?type=Course&id=PkId{key=_80052_1, dataType=...}')"),
        Some("_80052_1".to_string())
    );
    assert_eq!(course_key("key=, key=12_3,"), Some("12_3".to_string()));
    assert_eq!(course_key("key=123"), None);
    assert_eq!(course_key("nokey"), None);
}

#[test]
fn playlist_url_needs_m3u8_flag() {
    assert_eq!(playlist_url_of("yes", "https://h/p.m3u8").ok(), Some("https://h/p.m3u8".to_string()));
    assert_eq!(playlist_url_of("no", "https://h/p.mp4").err(), Some(ResolveError::NotM3u8));
}

#[test]
fn course_titles_and_names() {
    let c = CourseMeta {
        id: "_80052_1".into(),
        long_title: "24251-04831720-0006165033-1: 高等数学(一) (24-25学年第1学期)".into(),
        is_current: true,
    };
    assert_eq!(c.title(), Some("高等数学(一) (24-25学年第1学期)"));
    assert_eq!(c.name(), Some("高等数学(一)"));
    let c = CourseMeta { id: "x".into(), long_title: "no colon".into(), is_current: false };
    assert_eq!(c.title(), None);
    assert_eq!(c.name(), None);
    let c = CourseMeta { id: "x".into(), long_title: "a: b".into(), is_current: false };
    assert_eq!(c.title(), Some("b"));
    assert_eq!(c.name(), None);
}

#[test]
fn query_from_str() {
    let q: Query = "https://h/p?x=1".parse().ok().unwrap();
    assert_eq!(q.get("x"), Some("1"));
}

#[test]
fn recording_and_assignment_ids() {
    let mut h = std::hash::DefaultHasher::new();
    "_80052_1".hash(&mut h);
    "Lecture 1".hash(&mut h);
    "2024-09-01".hash(&mut h);
    assert_eq!(video_id("_80052_1", "Lecture 1", "2024-09-01"), format!("{:x}", h.finish()));
    let mut h = std::hash::DefaultHasher::new();
    "_80052_1".hash(&mut h);
    "_123_1".hash(&mut h);
    assert_eq!(assignment_id("_80052_1", "_123_1"), format!("{:x}", h.finish()));
    assert_ne!(video_id("a", "b", "c"), video_id("a", "b", "d"));
}
