use pku3b::crawl::{attachment_name, content_kind, CourseContentData, CourseContentKind, CourseContentStream};

fn node(id: &str, link: bool) -> CourseContentData {
    CourseContentData::new(
        id.to_string(),
        format!("title {id}"),
        CourseContentKind::Document,
        link,
        vec![],
        vec![],
    )
}

fn ids(v: &[CourseContentData]) -> Vec<String> {
    v.iter().map(|n| n.id().to_string()).collect()
}

#[test]
fn crawl_reveals_children_of_linked_nodes() {
    let mut s = CourseContentStream::new("course1".into(), vec!["root".into()]);
    assert_eq!(s.len(), 1);
    assert_eq!(s.num_finished(), 0);
    assert_eq!(s.cache_name(), "get_course_contents_course1");

    let batch = s.take_batch().unwrap();
    assert_eq!(batch, vec!["root".to_string()]);
    let first = s.absorb(vec![node("A", false), node("B", true), node("X", false)]);
    assert_eq!(ids(&first), vec!["A", "B", "X"]);
    assert_eq!(s.len(), 4);
    assert_eq!(s.num_finished(), 3);

    let batch = s.take_batch().unwrap();
    assert_eq!(batch, vec!["B".to_string()]);
    let second = s.absorb(vec![node("C", false), node("D", false)]);
    assert_eq!(ids(&second), vec!["C", "D"]);
    assert!(s.take_batch().is_none());
    assert_eq!(s.num_finished(), s.len());
}

#[test]
fn crawl_never_emits_an_id_twice() {
    let mut s = CourseContentStream::new("c".into(), vec!["r".into(), "r".into(), "q".into()]);
    assert_eq!(s.len(), 2);
    let batch = s.take_batch().unwrap();
    assert_eq!(batch.len(), 2);
    let out = s.absorb(vec![node("A", true), node("A", true), node("r", true), node("B", true)]);
    assert_eq!(ids(&out), vec!["A", "B"]);
    let batch = s.take_batch().unwrap();
    assert_eq!(batch, vec!["A".to_string(), "B".to_string()]);
    let out = s.absorb(vec![node("B", false), node("A", false), node("C", false)]);
    assert_eq!(ids(&out), vec!["C"]);
    assert!(s.take_batch().is_none());
}

#[test]
fn crawl_batches_hold_at_most_eight_ids_from_the_end() {
    let seeds: Vec<String> = (0..10).map(|i| format!("p{i}")).collect();
    let mut s = CourseContentStream::new("c".into(), seeds.clone());
    let b1 = s.take_batch().unwrap();
    assert_eq!(b1, seeds[2..].to_vec());
    let b2 = s.take_batch().unwrap();
    assert_eq!(b2, seeds[..2].to_vec());
    assert!(s.take_batch().is_none());
}

#[test]
fn failed_batch_is_dropped_and_not_retried() {
    let mut s = CourseContentStream::new("c".into(), vec!["r".into()]);
    s.take_batch().unwrap();
    s.absorb(vec![node("F", true), node("G", true)]);
    // the batch holding G fails: its result is never taken in
    let failed = s.take_batch().unwrap();
    assert_eq!(failed, vec!["F".to_string(), "G".to_string()]);
    assert!(s.take_batch().is_none());
    // a later page that mentions G again does not bring it back
    let out = s.absorb(vec![node("G", true), node("H", false)]);
    assert_eq!(ids(&out), vec!["H"]);
    assert!(s.take_batch().is_none());
}

#[test]
fn content_kinds_and_attachment_names() {
    assert_eq!(content_kind(Some("作业")), CourseContentKind::Assignment);
    assert_eq!(content_kind(Some("文件")), CourseContentKind::Document);
    assert_eq!(content_kind(Some("项目")), CourseContentKind::Document);
    assert_eq!(content_kind(Some("x")), CourseContentKind::Unknown);
    assert_eq!(content_kind(None), CourseContentKind::Unknown);
    assert_eq!(attachment_name("\u{a0}report.pdf"), "report.pdf");
    assert_eq!(attachment_name("report.pdf"), "report.pdf");
}
