//! Course-selection records and the capacity test on their status column.

use crate::text::{chars_of, parse_usize, trim_bounds, trim_of, usize_of};
use vstd::prelude::*;

verus! {

/// Why a status column could not be read.
#[derive(Debug, Clone, Copy, PartialEq, Eq, Structural)]
pub enum StatusError {
    /// The status is not of the form `limit/selected`.
    Format,
    /// The limit or the selected count is not a number.
    Number,
}

/// The number of occurrences of `c` in `s`.
pub open spec fn count_of(s: Seq<char>, c: char) -> nat
    decreases s.len(),
{
    if s.len() == 0 {
        0
    } else {
        count_of(s.drop_last(), c) + if s.last() == c {
            1nat
        } else {
            0nat
        }
    }
}

/// The index of the first `c` in `s`, or `s.len()` where there is none.
pub open spec fn first_index_of(s: Seq<char>, c: char) -> int
    decreases s.len(),
{
    if s.len() == 0 {
        0
    } else if first_index_of(s.drop_last(), c) < s.len() - 1 {
        first_index_of(s.drop_last(), c)
    } else if s.last() == c {
        s.len() - 1
    } else {
        s.len() as int
    }
}

/// Whether a status `limit/selected` shows a full course: the selected count
/// has reached the limit. Both parts are numbers, spaces around them allowed.
pub open spec fn status_full_of(s: Seq<char>) -> Result<bool, StatusError> {
    if count_of(s, '/') != 1 {
        Err(StatusError::Format)
    } else {
        let k = first_index_of(s, '/');
        let limit = usize_of(trim_of(s.subrange(0, k)));
        let selected = usize_of(trim_of(s.subrange(k + 1, s.len() as int)));
        match (limit, selected) {
            (Some(l), Some(x)) => Ok(x >= l),
            _ => Err(StatusError::Number),
        }
    }
}

/// Whether the status `limit/selected` of a course shows it full.
pub fn status_is_full(status: &str) -> (r: Result<bool, StatusError>)
    ensures
        r == status_full_of(status@),
{
    let v = chars_of(status);
    let n = v.len();
    let mut count: usize = 0;
    let mut first: usize = 0;
    let mut i: usize = 0;
    while i < n
        invariant
            n == v@.len(),
            v@ == status@,
            count <= 1,
            i <= n,
            count == count_of(v@.subrange(0, i as int), '/'),
            first == first_index_of(v@.subrange(0, i as int), '/'),
            first <= i,
        decreases n - i,
    {
        assert(v@.subrange(0, i + 1).drop_last() == v@.subrange(0, i as int));
        if v[i] == '/' {
            count += 1;
            if first == i {
                first = i;
            }
        } else if first == i {
            first = i + 1;
        }
        if count > 1 {
            assert(count_of(v@.subrange(0, i + 1), '/') > 1);
            proof {
                lemma_count_prefix_le(v@, i + 1, '/');
            }
            assert(v@.subrange(0, n as int) == v@);
            return Err(StatusError::Format);
        }
        i += 1;
    }
    assert(v@.subrange(0, n as int) == v@);
    if count != 1 {
        return Err(StatusError::Format);
    }
    proof {
        lemma_first_index_bound(v@, '/');
    }
    let (a, b) = trim_bounds(&v, 0, first);
    let limit = parse_usize(&v, a, b);
    let (c, d) = trim_bounds(&v, first + 1, n);
    let selected = parse_usize(&v, c, d);
    match (limit, selected) {
        (Some(l), Some(x)) => Ok(x >= l),
        _ => Err(StatusError::Number),
    }
}

proof fn lemma_count_prefix_le(s: Seq<char>, j: int, c: char)
    requires
        0 <= j <= s.len(),
    ensures
        count_of(s.subrange(0, j), c) <= count_of(s, c),
    decreases s.len() - j,
{
    if j < s.len() {
        lemma_count_prefix_le(s, j + 1, c);
        assert(s.subrange(0, j + 1).drop_last() == s.subrange(0, j));
    } else {
        assert(s.subrange(0, j) == s);
    }
}

proof fn lemma_first_index_bound(s: Seq<char>, c: char)
    ensures
        0 <= first_index_of(s, c) <= s.len(),
        count_of(s, c) > 0 ==> first_index_of(s, c) < s.len(),
    decreases s.len(),
{
    if s.len() > 0 {
        lemma_first_index_bound(s.drop_last(), c);
    }
}

/// Why a row of a course table could not be read.
#[derive(Debug, Clone, Copy, PartialEq, Eq, Structural)]
pub enum TableError {
    /// The header row does not name the expected columns.
    UnexpectedColumns,
    /// A course row has too few cells.
    ShortRow,
    /// A supplementary course row has no selection link.
    MissingLink,
}

/// The columns of the course-selection result table.
pub open spec fn result_columns() -> Seq<Seq<char>> {
    seq!["课程名"@, "课程类别"@, "学分"@, "周学时"@, "教师"@, "班号"@, "开课单位"@, "教室信息"@, "自选P/NP"@, "选课结果"@, "IP地址"@, "操作时间"@]
}

/// The columns of the supplementary-selection table.
pub open spec fn supplement_columns() -> Seq<Seq<char>> {
    seq!["课程名"@, "课程类别"@, "学分"@, "周学时"@, "教师"@, "班号"@, "开课单位"@, "年级"@, "上课/考试信息"@, "自选P/NP"@, "限数/已选/候补"@, "补选"@]
}

pub open spec fn texts(v: Seq<String>) -> Seq<Seq<char>> {
    v.map_values(|s: String| s@)
}

fn texts_equal(v: &Vec<String>, expected: &[&str]) -> (r: bool)
    ensures
        r == (texts(v@) == expected@.map_values(|s: &str| s@)),
{
    if v.len() != expected.len() {
        assert(texts(v@).len() != expected@.map_values(|s: &str| s@).len());
        return false;
    }
    let mut i: usize = 0;
    while i < v.len()
        invariant
            v@.len() == expected@.len(),
            i <= v@.len(),
            forall|j: int| 0 <= j < i ==> v@[j]@ == expected@[j]@,
        decreases v@.len() - i,
    {
        if !crate::text::str_eq(v[i].as_str(), expected[i]) {
            assert(texts(v@)[i as int] != expected@.map_values(|s: &str| s@)[i as int]);
            return false;
        }
        i += 1;
    }
    assert(texts(v@) =~= expected@.map_values(|s: &str| s@));
    true
}

/// Whether a header row names the columns of the result table.
pub fn is_result_header(cols: &Vec<String>) -> (r: bool)
    ensures
        r == (texts(cols@) == result_columns()),
{
    let expected: [&str; 12] = ["课程名", "课程类别", "学分", "周学时", "教师", "班号", "开课单位", "教室信息", "自选P/NP", "选课结果", "IP地址", "操作时间"];
    let r = texts_equal(cols, &expected);
    assert(expected@.map_values(|s: &str| s@) =~= result_columns());
    r
}

/// Whether a header row names the columns of the supplementary-selection table.
pub fn is_supplement_header(cols: &Vec<String>) -> (r: bool)
    ensures
        r == (texts(cols@) == supplement_columns()),
{
    let expected: [&str; 12] = ["课程名", "课程类别", "学分", "周学时", "教师", "班号", "开课单位", "年级", "上课/考试信息", "自选P/NP", "限数/已选/候补", "补选"];
    let r = texts_equal(cols, &expected);
    assert(expected@.map_values(|s: &str| s@) =~= supplement_columns());
    r
}

/// The course of a row, from the trimmed texts of its cells, where the cells
/// at `idx` hold, in order: name, category, score, hours per week, teacher,
/// class, department, classroom, P/NP choice, status.
fn course_of_cells(row: &Vec<String>, idx: [usize; 10]) -> (r: SyllabusBaseCourseData)
    requires
        forall|k: int| 0 <= k < 10 ==> #[trigger] idx@[k] < row@.len(),
    ensures
        r.name@ == row@[idx@[0] as int]@,
        r.category@ == row@[idx@[1] as int]@,
        r.score@ == row@[idx@[2] as int]@,
        r.hours_per_week@ == row@[idx@[3] as int]@,
        r.teacher@ == row@[idx@[4] as int]@,
        r.class_id@ == row@[idx@[5] as int]@,
        r.department@ == row@[idx@[6] as int]@,
        r.classroom@ == row@[idx@[7] as int]@,
        r.custom_n_or_np@ == row@[idx@[8] as int]@,
        r.status@ == row@[idx@[9] as int]@,
{
    SyllabusBaseCourseData {
        name: row[idx[0]].clone(),
        category: row[idx[1]].clone(),
        score: row[idx[2]].clone(),
        hours_per_week: row[idx[3]].clone(),
        teacher: row[idx[4]].clone(),
        class_id: row[idx[5]].clone(),
        department: row[idx[6]].clone(),
        classroom: row[idx[7]].clone(),
        custom_n_or_np: row[idx[8]].clone(),
        status: row[idx[9]].clone(),
    }
}

/// Reads a row of the result table from the trimmed texts of its cells. A row
/// of at most one cell is the pagination line and gives no course.
pub fn result_row(row: &Vec<String>) -> (r: Result<Option<SyllabusBaseCourseData>, TableError>)
    ensures
        row@.len() <= 1 ==> r matches Ok(None),
        2 <= row@.len() < 10 ==> r matches Err(TableError::ShortRow),
        row@.len() >= 10 ==> (r matches Ok(Some(c)) && {
            &&& c.name@ == row@[0]@
            &&& c.category@ == row@[1]@
            &&& c.score@ == row@[2]@
            &&& c.hours_per_week@ == row@[3]@
            &&& c.teacher@ == row@[4]@
            &&& c.class_id@ == row@[5]@
            &&& c.department@ == row@[6]@
            &&& c.classroom@ == row@[7]@
            &&& c.custom_n_or_np@ == row@[8]@
            &&& c.status@ == row@[9]@
        }),
{
    if row.len() <= 1 {
        return Ok(None);
    }
    if row.len() < 10 {
        return Err(TableError::ShortRow);
    }
    let idx: [usize; 10] = [0, 1, 2, 3, 4, 5, 6, 7, 8, 9];
    Ok(Some(course_of_cells(row, idx)))
}

/// Reads a row of the supplementary-selection table on page `page_id` from the
/// trimmed texts of its cells and the link of its last cell. A row of at most
/// two cells is the pagination line and gives no course. The grade column is
/// not kept.
pub fn supplement_row(row: &Vec<String>, link: Option<String>, page_id: usize) -> (r: Result<
    Option<SyllabusSupplementCourseData>,
    TableError,
>)
    ensures
        row@.len() <= 2 ==> r matches Ok(None),
        2 < row@.len() < 11 ==> r matches Err(TableError::ShortRow),
        row@.len() >= 11 && link is None ==> r matches Err(TableError::MissingLink),
        row@.len() >= 11 && link is Some ==> (r matches Ok(Some(c)) && {
            &&& c.base.name@ == row@[0]@
            &&& c.base.category@ == row@[1]@
            &&& c.base.score@ == row@[2]@
            &&& c.base.hours_per_week@ == row@[3]@
            &&& c.base.teacher@ == row@[4]@
            &&& c.base.class_id@ == row@[5]@
            &&& c.base.department@ == row@[6]@
            &&& c.base.classroom@ == row@[8]@
            &&& c.base.custom_n_or_np@ == row@[9]@
            &&& c.base.status@ == row@[10]@
            &&& c.supplement_url@ == link->0@
            &&& c.page_id == page_id
        }),
{
    if row.len() <= 2 {
        return Ok(None);
    }
    if row.len() < 11 {
        return Err(TableError::ShortRow);
    }
    let supplement_url = match link {
        Some(u) => u,
        None => return Err(TableError::MissingLink),
    };
    let idx: [usize; 10] = [0, 1, 2, 3, 4, 5, 6, 8, 9, 10];
    let base = course_of_cells(row, idx);
    Ok(Some(SyllabusSupplementCourseData { base, supplement_url, page_id }))
}

/// Whether a configured course is the listed course `c`: same name, teacher
/// and class.
pub fn config_matches(cfg: &crate::config::SupplementCourseConfig, c: &SyllabusBaseCourseData) -> (r: bool)
    ensures
        r == (cfg.name@ == c.name@ && cfg.teacher@ == c.teacher@ && cfg.class_id@ == c.class_id@),
{
    crate::text::str_eq(cfg.name.as_str(), c.name.as_str()) && crate::text::str_eq(
        cfg.teacher.as_str(),
        c.teacher.as_str(),
    ) && crate::text::str_eq(cfg.class_id.as_str(), c.class_id.as_str())
}

/// A course as the course-selection result list shows it.
pub struct SyllabusBaseCourseData {
    pub name: String,
    pub category: String,
    pub score: String,
    pub hours_per_week: String,
    pub teacher: String,
    pub class_id: String,
    pub department: String,
    pub classroom: String,
    pub custom_n_or_np: String,
    /// The selection result, or `limit/selected` (with waiting list) for open courses.
    pub status: String,
}

impl SyllabusBaseCourseData {
    /// Whether the course is full, by its status column.
    pub fn is_full(&self) -> (r: Result<bool, StatusError>)
        ensures
            r == status_full_of(self.status@),
    {
        status_is_full(self.status.as_str())
    }
}

/// A course offered for supplementary selection.
pub struct SyllabusSupplementCourseData {
    pub base: SyllabusBaseCourseData,
    /// Where to send the selection request.
    pub supplement_url: String,
    /// The page of the supplementary list the course is on.
    pub page_id: usize,
}

impl SyllabusSupplementCourseData {
    pub fn base(&self) -> (r: &SyllabusBaseCourseData)
        ensures
            *r == self.base,
    {
        &self.base
    }

    /// Whether the course is full, by its status column.
    pub fn is_full(&self) -> (r: Result<bool, StatusError>)
        ensures
            r == status_full_of(self.base.status@),
    {
        self.base.is_full()
    }
}

} // verus!
