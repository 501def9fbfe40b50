use pku3b::config::SupplementCourseConfig;
use pku3b::syllabus::{
    config_matches, is_result_header, is_supplement_header, result_row, supplement_row, TableError,
};

fn strings(v: &[&str]) -> Vec<String> {
    v.iter().map(|s| s.to_string()).collect()
}

#[test]
fn result_table_rows() {
    let header = strings(&[
        "课程名", "课程类别", "学分", "周学时", "教师", "班号", "开课单位", "教室信息", "自选P/NP",
        "选课结果", "IP地址", "操作时间",
    ]);
    assert!(is_result_header(&header));
    assert!(!is_supplement_header(&header));
    assert!(!is_result_header(&header[..11].to_vec()));

    let row = strings(&["数学", "必修", "5", "6", "张三", "1", "数学学院", "二教", "否", "已选上", "ip", "t"]);
    let c = result_row(&row).unwrap().unwrap();
    assert_eq!((c.name.as_str(), c.teacher.as_str(), c.status.as_str()), ("数学", "张三", "已选上"));
    assert_eq!(c.classroom, "二教");
    assert!(result_row(&strings(&["Page 1 of 1"])).unwrap().is_none());
    assert_eq!(result_row(&strings(&["a", "b", "c"])).err(), Some(TableError::ShortRow));
}

#[test]
fn supplement_table_rows() {
    let header = strings(&[
        "课程名", "课程类别", "学分", "周学时", "教师", "班号", "开课单位", "年级", "上课/考试信息",
        "自选P/NP", "限数/已选/候补", "补选",
    ]);
    assert!(is_supplement_header(&header));
    let row = strings(&["数学", "必修", "5", "6", "张三", "1", "数学学院", "2024", "二教", "否", "30 / 35", "补选"]);
    let c = supplement_row(&row, Some("/elect?x=1".into()), 2).unwrap().unwrap();
    assert_eq!(c.base.classroom, "二教");
    assert_eq!(c.base.status, "30 / 35");
    assert_eq!(c.supplement_url, "/elect?x=1");
    assert_eq!(c.page_id, 2);
    assert_eq!(c.is_full(), Ok(true));
    assert!(supplement_row(&strings(&["a", "b"]), None, 0).unwrap().is_none());
    assert_eq!(supplement_row(&row, None, 0).err(), Some(TableError::MissingLink));
    assert_eq!(supplement_row(&row[..5].to_vec(), None, 0).err(), Some(TableError::ShortRow));

    let cfg = SupplementCourseConfig { page_id: 2, name: "数学".into(), teacher: "张三".into(), class_id: "1".into() };
    assert!(config_matches(&cfg, &c.base));
    let other = SupplementCourseConfig { class_id: "2".into(), ..cfg };
    assert!(!config_matches(&other, &c.base));
}
