//! The question bank: column resolution over a worksheet's header row and the
//! assembly of one typed record per data row.

use vstd::prelude::*;
use calamine::{DataType, Reader};
use crate::category::{LicenseClass, QuestionCategory};
use crate::markup::{agrees, decode_events, markup_of, parse_answers, Answers};
use crate::text::{chars_of, same_text};

verus! {

/// One question of the bank.
#[derive(Clone)]
pub struct Question {
    /// The number in the first four characters of the question text.
    pub num: usize,
    /// The question, its number included.
    pub question: String,
    /// The possible answers.
    pub answers: Answers,
    /// The category of the question.
    pub category: QuestionCategory,
    /// The license classes the question is for.
    pub license_classes: Vec<LicenseClass>,
    /// An image that illustrates the question, if there is one.
    pub image_url: Option<String>,
}

impl PartialEq for Question {
    fn eq(&self, other: &Self) -> (r: bool)
        ensures
            r == (self.num == other.num),
    {
        self.num == other.num
    }
}

impl vstd::std_specs::cmp::PartialEqSpecImpl for Question {
    open spec fn obeys_eq_spec() -> bool {
        true
    }

    open spec fn eq_spec(&self, other: &Question) -> bool {
        self.num == other.num
    }
}

#[verifier::external_type_specification]
#[verifier::external_body]
pub struct ExXlsxError(calamine::XlsxError);

/// Why a worksheet could not be read as a question bank. Rows are counted
/// from the first row under the header, from zero.
#[derive(Debug)]
pub enum Error {
    /// The workbook itself could not be read.
    Xlsx(calamine::XlsxError),
    /// No `description4` column (the answers).
    NoDescription4Header,
    /// No `title2` column (the questions).
    NoTitle2Header,
    /// No `category` column.
    NoCategoryHeader,
    /// A question, answer or category cell of the row holds no text.
    NotText(usize),
    /// The category label of the row is none of the known ones.
    UnknownCategory(usize),
    /// The question text of the row does not begin with a four-digit number.
    InvalidNumber(usize),
}

/// The questions of one worksheet, in row order.
#[derive(Clone)]
pub struct ExamQuestions {
    pub questions: Vec<Question>,
}

/// The positions of the required columns: question, answers, category.
pub struct Columns {
    pub question: usize,
    pub answers: usize,
    pub category: usize,
}

/// The position of the first header named `name` among `headers`.
pub open spec fn find_column(headers: Seq<Seq<char>>, name: Seq<char>) -> Option<nat>
    decreases headers.len(),
{
    if headers.len() == 0 {
        None
    } else {
        match find_column(headers.drop_last(), name) {
            Some(i) => Some(i),
            None => if headers.last() == name {
                Some((headers.len() - 1) as nat)
            } else {
                None
            },
        }
    }
}

/// The columns of a header row, or the error for the first required name
/// that is absent, looked for in the order answers, question, category.
pub open spec fn columns_of(headers: Seq<Seq<char>>) -> Result<(nat, nat, nat), Error> {
    let a = find_column(headers, "description4"@);
    let q = find_column(headers, "title2"@);
    let c = find_column(headers, "category"@);
    if a is None {
        Err(Error::NoDescription4Header)
    } else if q is None {
        Err(Error::NoTitle2Header)
    } else if c is None {
        Err(Error::NoCategoryHeader)
    } else {
        Ok((q.unwrap(), a.unwrap(), c.unwrap()))
    }
}

/// The text of cell `k` of a row, if it has one.
pub open spec fn cell(row: Seq<Option<Seq<char>>>, k: nat) -> Option<Seq<char>> {
    if k < row.len() {
        row[k as int]
    } else {
        None
    }
}

/// The question, answer and category texts of a row.
pub open spec fn row_fields(row: Seq<Option<Seq<char>>>, cols: (nat, nat, nat)) -> (
    Option<Seq<char>>,
    Option<Seq<char>>,
    Option<Seq<char>>,
) {
    (cell(row, cols.0), cell(row, cols.1), cell(row, cols.2))
}

pub open spec fn digit(c: char) -> int {
    c as int - '0' as int
}

pub open spec fn is_digit(c: char) -> bool {
    '0' <= c && c <= '9'
}

/// The number written by the first four characters of `q`, when they are digits.
pub open spec fn question_number(q: Seq<char>) -> Option<nat> {
    if q.len() >= 4 && is_digit(q[0]) && is_digit(q[1]) && is_digit(q[2]) && is_digit(q[3]) {
        Some((digit(q[0]) * 1000 + digit(q[1]) * 100 + digit(q[2]) * 10 + digit(q[3])) as nat)
    } else {
        None
    }
}

/// What is wrong with data row `i`, whose fields are `f`, if anything.
pub open spec fn row_error(
    f: (Option<Seq<char>>, Option<Seq<char>>, Option<Seq<char>>),
    i: nat,
) -> Option<Error> {
    if f.0 is None || f.1 is None || f.2 is None {
        Some(Error::NotText(i as usize))
    } else if QuestionCategory::of_label(f.2.unwrap()) is None {
        Some(Error::UnknownCategory(i as usize))
    } else if question_number(f.0.unwrap()) is None {
        Some(Error::InvalidNumber(i as usize))
    } else {
        None
    }
}

/// `q` is the record of a valid data row whose fields are `f`.
pub open spec fn is_record_of(
    q: Question,
    f: (Option<Seq<char>>, Option<Seq<char>>, Option<Seq<char>>),
) -> bool {
    &&& q.question@ == f.0.unwrap()
    &&& q.num == question_number(f.0.unwrap()).unwrap()
    &&& Some(q.category) == QuestionCategory::of_label(f.2.unwrap())
    &&& agrees((q.answers, q.license_classes, q.image_url), decode_events(markup_of(f.1.unwrap())))
}


/// The texts of a header row.
pub open spec fn texts_view(v: Seq<String>) -> Seq<Seq<char>> {
    v.map_values(|s: String| s@)
}

/// The cell texts of a row.
pub open spec fn row_view(row: Seq<Option<String>>) -> Seq<Option<Seq<char>>> {
    row.map_values(|c: Option<String>| text_view(c))
}

/// The cell texts of a table.
pub open spec fn table_view(rows: Seq<Vec<Option<String>>>) -> Seq<Seq<Option<Seq<char>>>> {
    rows.map_values(|r: Vec<Option<String>>| row_view(r@))
}

/// The position of the first header named `name`.
fn find_column_exec(headers: &Vec<String>, name: &str) -> (r: Option<usize>)
    ensures
        match r {
            Some(i) => find_column(texts_view(headers@), name@) == Some(i as nat),
            None => find_column(texts_view(headers@), name@) is None,
        },
{
    let ghost hv = texts_view(headers@);
    let mut i: usize = 0;
    while i < headers.len()
        invariant
            i <= headers@.len(),
            hv == texts_view(headers@),
            find_column(hv.subrange(0, i as int), name@) is None,
        decreases headers@.len() - i,
    {
        assert(hv.subrange(0, i + 1).drop_last() =~= hv.subrange(0, i as int));
        if same_text(headers[i].as_str(), name) {
            proof {
                lemma_find_column_extend(hv, name@, i + 1);
            }
            return Some(i);
        }
        i += 1;
    }
    assert(hv.subrange(0, hv.len() as int) =~= hv);
    None
}

/// A header found in a prefix is found at the same place in the whole row.
proof fn lemma_find_column_extend(headers: Seq<Seq<char>>, name: Seq<char>, n: int)
    requires
        0 <= n <= headers.len(),
        find_column(headers.subrange(0, n), name) is Some,
    ensures
        find_column(headers, name) == find_column(headers.subrange(0, n), name),
    decreases headers.len() - n,
{
    if n < headers.len() {
        assert(headers.subrange(0, n + 1).drop_last() =~= headers.subrange(0, n));
        lemma_find_column_extend(headers, name, n + 1);
    } else {
        assert(headers.subrange(0, n) =~= headers);
    }
}

/// Resolves the required columns by their exact names, in any order; each of
/// the three is looked up whether or not another is missing.
pub fn resolve_columns(headers: &Vec<String>) -> (r: Result<Columns, Error>)
    ensures
        match (r, columns_of(texts_view(headers@))) {
            (Ok(c), Ok(s)) => c.question == s.0 && c.answers == s.1 && c.category == s.2,
            (Err(e), Err(s)) => e == s,
            _ => false,
        },
{
    let answers = find_column_exec(headers, "description4");
    let question = find_column_exec(headers, "title2");
    let category = find_column_exec(headers, "category");
    match (answers, question, category) {
        (None, _, _) => Err(Error::NoDescription4Header),
        (_, None, _) => Err(Error::NoTitle2Header),
        (_, _, None) => Err(Error::NoCategoryHeader),
        (Some(a), Some(q), Some(c)) => Ok(Columns { question: q, answers: a, category: c }),
    }
}

/// The number written by the first four characters of `q`, when they are digits.
pub fn question_number_exec(q: &str) -> (r: Option<usize>)
    ensures
        match r {
            Some(n) => question_number(q@) == Some(n as nat),
            None => question_number(q@) is None,
        },
{
    let chars = chars_of(q);
    if chars.len() < 4 {
        return None;
    }
    let mut n: usize = 0;
    let mut i: usize = 0;
    while i < 4
        invariant
            chars@ == q@,
            chars@.len() >= 4,
            i <= 4,
            forall|j: int| 0 <= j < i ==> is_digit(chars@[j]),
            n == (if i == 0 { 0 } else if i == 1 { digit(chars@[0]) } else if i == 2 {
                digit(chars@[0]) * 10 + digit(chars@[1])
            } else if i == 3 {
                digit(chars@[0]) * 100 + digit(chars@[1]) * 10 + digit(chars@[2])
            } else {
                digit(chars@[0]) * 1000 + digit(chars@[1]) * 100 + digit(chars@[2]) * 10 + digit(chars@[3])
            }),
            n < 10000,
        decreases 4 - i,
    {
        let c = chars[i];
        if c < '0' || c > '9' {
            return None;
        }
        n = n * 10 + (c as usize - '0' as usize);
        i += 1;
    }
    Some(n)
}


pub open spec fn text_view(o: Option<String>) -> Option<Seq<char>> {
    match o {
        Some(s) => Some(s@),
        None => None,
    }
}

/// The text of cell `k` of a row, if it has one.
fn cell_exec(row: &Vec<Option<String>>, k: usize) -> (r: Option<String>)
    ensures
        text_view(r) == cell(row_view(row@), k as nat),
{
    if k < row.len() {
        match &row[k] {
            Some(s) => Some(s.clone()),
            None => None,
        }
    } else {
        None
    }
}

/// Builds the record of data row `i` from its question, answer and category texts.
pub fn build_question(question: String, answers: &str, category: &str, i: usize) -> (r: Result<Question, Error>)
    ensures
        match r {
            Ok(q) => row_error((Some(question@), Some(answers@), Some(category@)), i as nat) is None
                && is_record_of(q, (Some(question@), Some(answers@), Some(category@))),
            Err(e) => row_error((Some(question@), Some(answers@), Some(category@)), i as nat) == Some(e),
        },
{
    let decoded = parse_answers(answers);
    let category = match QuestionCategory::from_str_he(category) {
        Some(c) => c,
        None => return Err(Error::UnknownCategory(i)),
    };
    let num = match question_number_exec(question.as_str()) {
        Some(n) => n,
        None => return Err(Error::InvalidNumber(i)),
    };
    let (answers, license_classes, image_url) = decoded;
    let q = Question { num, question, answers, category, license_classes, image_url };
    Ok(q)
}

/// All rows before `n` are valid.
pub open spec fn rows_valid(rows: Seq<Seq<Option<Seq<char>>>>, cols: (nat, nat, nat), n: int) -> bool {
    forall|j: int| 0 <= j < n ==> row_error(row_fields(#[trigger] rows[j], cols), j as nat) is None
}

/// `r` is the bank, or the failure, that the header row `headers` and the
/// data rows `rows` call for.
pub open spec fn bank_outcome(
    headers: Seq<Seq<char>>,
    rows: Seq<Seq<Option<Seq<char>>>>,
    r: Result<ExamQuestions, Error>,
) -> bool {
    &&& columns_of(headers) is Err ==> r == Err::<ExamQuestions, Error>(columns_of(headers)->Err_0)
    &&& columns_of(headers) is Ok ==> {
        let cols = columns_of(headers)->Ok_0;
        &&& (r is Ok <==> rows_valid(rows, cols, rows.len() as int))
        &&& r is Ok ==> r->Ok_0.questions@.len() == rows.len()
        &&& r is Ok ==> forall|i: int| 0 <= i < rows.len()
            ==> is_record_of(#[trigger] r->Ok_0.questions@[i], row_fields(rows[i], cols))
        &&& r is Err ==> exists|i: int| 0 <= i < rows.len() && rows_valid(rows, cols, i)
            && row_error(row_fields(#[trigger] rows[i], cols), i as nat) == Some(r->Err_0)
    }
}

impl ExamQuestions {
    /// Assembles the bank from a header row and the data rows under it, each
    /// row given as the text of its cells (`None` where a cell holds no text).
    /// A missing required column, or the first invalid row, fails the whole
    /// bank.
    pub fn from_rows(headers: &Vec<String>, rows: &Vec<Vec<Option<String>>>) -> (r: Result<ExamQuestions, Error>)
        ensures
            bank_outcome(texts_view(headers@), table_view(rows@), r),
    {
        let columns = match resolve_columns(headers) {
            Ok(c) => c,
            Err(e) => return Err(e),
        };
        let ghost hv = texts_view(headers@);
        let ghost tv = table_view(rows@);
        let ghost cols = columns_of(hv)->Ok_0;
        let mut questions: Vec<Question> = Vec::new();
        let mut i: usize = 0;
        while i < rows.len()
            invariant
                i <= rows@.len(),
                hv == texts_view(headers@),
                tv == table_view(rows@),
                columns_of(hv) is Ok,
                cols == columns_of(hv)->Ok_0,
                columns.question == cols.0 && columns.answers == cols.1 && columns.category == cols.2,
                questions@.len() == i,
                rows_valid(tv, cols, i as int),
                forall|j: int| 0 <= j < i ==> is_record_of(#[trigger] questions@[j], row_fields(tv[j], cols)),
            decreases rows@.len() - i,
        {
            let row = &rows[i];
            let question = cell_exec(row, columns.question);
            let answers = cell_exec(row, columns.answers);
            let category = cell_exec(row, columns.category);
            assert(tv[i as int] == row_view(row@));
            assert(row_fields(tv[i as int], cols) == (text_view(question), text_view(answers), text_view(category)));
            match (question, answers, category) {
                (Some(q), Some(a), Some(c)) => {
                    match build_question(q, a.as_str(), c.as_str(), i) {
                        Ok(record) => {
                            questions.push(record);
                        },
                        Err(e) => {
                            return Err(e);
                        },
                    }
                },
                _ => {
                    return Err(Error::NotText(i));
                },
            }
            i += 1;
        }
        Ok(ExamQuestions { questions })
    }
}


#[verifier::external_type_specification]
#[verifier::external_body]
#[verifier::reject_recursive_types(RS)]
pub struct ExXlsx<RS>(calamine::Xlsx<RS>);

/// A worksheet as plain values: the texts of its first row (`None` for an
/// empty worksheet), and every row, the first included, as the texts of its
/// cells (`None` where a cell holds neither a string nor a number).
pub type Sheet = (Option<Vec<String>>, Vec<Vec<Option<String>>>);

/// The view of a worksheet.
pub open spec fn sheet_view(s: Sheet) -> (Option<Seq<Seq<char>>>, Seq<Seq<Option<Seq<char>>>>) {
    (
        match s.0 {
            Some(h) => Some(texts_view(h@)),
            None => None,
        },
        table_view(s.1@),
    )
}

pub open spec fn opt_sheet_view(s: Option<Sheet>) -> Option<(Option<Seq<Seq<char>>>, Seq<Seq<Option<Seq<char>>>>)> {
    match s {
        Some(s) => Some(sheet_view(s)),
        None => None,
    }
}

/// What calamine reads from the xlsx file in `bytes`: `None` when it cannot
/// open it as a workbook, else its first worksheet, if it has one, as plain values.
pub uninterp spec fn first_sheet_of(
    bytes: Seq<u8>,
) -> Option<Option<(Option<Seq<Seq<char>>>, Seq<Seq<Option<Seq<char>>>>)>>;

/// Relies on `calamine::open_workbook_from_rs`, then `Reader::worksheets`,
/// `Range::headers`, `Range::rows` and `DataType::as_string` on the first
/// worksheet: an error exactly when the bytes cannot be opened as a workbook.
#[verifier::external_body]
fn read_first_sheet(bytes: &[u8]) -> (r: Result<Option<Sheet>, calamine::XlsxError>)
    ensures
        r is Err <==> first_sheet_of(bytes@) is None,
        r is Ok ==> first_sheet_of(bytes@) == Some(opt_sheet_view(r->Ok_0)),
{
    let mut workbook: calamine::Xlsx<_> = calamine::open_workbook_from_rs(std::io::Cursor::new(bytes))?;
    Ok(workbook.worksheets().into_iter().next().map(|(_, range)| {
        (range.headers(), range.rows().map(|row| row.iter().map(|c| c.as_string()).collect()).collect())
    }))
}

/// Relies on `calamine::Reader::worksheets`, `Range::headers`, `Range::rows`
/// and `DataType::as_string`: the first worksheet of the workbook, if any, as
/// plain values.
#[verifier::external_body]
fn first_sheet<RS: std::io::Read + std::io::Seek>(workbook: &mut calamine::Xlsx<RS>) -> Option<Sheet> {
    workbook.worksheets().into_iter().next().map(|(_, range)| {
        (range.headers(), range.rows().map(|row| row.iter().map(|c| c.as_string()).collect()).collect())
    })
}

/// The rows under the first one.
pub open spec fn data_rows(rows: Seq<Seq<Option<Seq<char>>>>) -> Seq<Seq<Option<Seq<char>>>> {
    if rows.len() == 0 {
        rows
    } else {
        rows.subrange(1, rows.len() as int)
    }
}

/// `r` is what a workbook whose first worksheet is `sheet` calls for. A
/// workbook without a worksheet, or a worksheet without a header row, lacks
/// the required columns.
pub open spec fn sheet_outcome(
    sheet: Option<(Option<Seq<Seq<char>>>, Seq<Seq<Option<Seq<char>>>>)>,
    r: Result<ExamQuestions, Error>,
) -> bool {
    match sheet {
        Some((Some(headers), rows)) => bank_outcome(headers, data_rows(rows), r),
        _ => bank_outcome(seq![], seq![], r),
    }
}

impl ExamQuestions {
    /// Builds the bank from a worksheet given as plain values.
    pub fn from_sheet(sheet: Option<Sheet>) -> (r: Result<Self, Error>)
        ensures
            sheet_outcome(opt_sheet_view(sheet), r),
    {
        match sheet {
            Some((Some(headers), rows)) => {
                let mut rows = rows;
                let ghost all = rows@;
                if rows.len() > 0 {
                    rows.remove(0);
                    assert(table_view(rows@) =~= data_rows(table_view(all)));
                } else {
                    assert(table_view(rows@) =~= data_rows(table_view(all)));
                }
                Self::from_rows(&headers, &rows)
            },
            _ => {
                let headers: Vec<String> = Vec::new();
                let rows: Vec<Vec<Option<String>>> = Vec::new();
                assert(texts_view(headers@) =~= seq![]);
                assert(table_view(rows@) =~= seq![]);
                Self::from_rows(&headers, &rows)
            },
        }
    }

    /// Reads the question bank from the first worksheet of a workbook.
    pub fn parse_from_workbook<RS: std::io::Read + std::io::Seek>(workbook: calamine::Xlsx<RS>) -> (r: Result<Self, Error>)
        ensures
            exists|sheet: Option<(Option<Seq<Seq<char>>>, Seq<Seq<Option<Seq<char>>>>)>| sheet_outcome(sheet, r),
    {
        let mut workbook = workbook;
        let sheet = first_sheet(&mut workbook);
        let r = Self::from_sheet(sheet);
        assert(sheet_outcome(opt_sheet_view(sheet), r));
        r
    }

    /// Reads the question bank from the bytes of an xlsx file: `Error::Xlsx`
    /// when they cannot be opened as a workbook, else the bank of its first
    /// worksheet.
    pub fn parse_from_xlsx(bytes: &[u8]) -> (r: Result<Self, Error>)
        ensures
            first_sheet_of(bytes@) is None ==> r is Err && r->Err_0 is Xlsx,
            first_sheet_of(bytes@) is Some ==> sheet_outcome(first_sheet_of(bytes@).unwrap(), r),
    {
        match read_first_sheet(bytes) {
            Ok(sheet) => Self::from_sheet(sheet),
            Err(e) => Err(Error::Xlsx(e)),
        }
    }
}

/// Some header of the row is named `name`.
pub open spec fn has_header(headers: Seq<Seq<char>>, name: Seq<char>) -> bool {
    exists|k: int| 0 <= k < headers.len() && #[trigger] headers[k] == name
}

/// The text that a row holds under the header named `name`.
pub open spec fn named_cell(headers: Seq<Seq<char>>, row: Seq<Option<Seq<char>>>, name: Seq<char>) -> Option<Seq<char>> {
    match find_column(headers, name) {
        Some(k) => cell(row, k),
        None => None,
    }
}

/// A header is found wherever it stands in the row, and what is found bears its name.
pub proof fn lemma_find_column_anywhere(headers: Seq<Seq<char>>, name: Seq<char>)
    ensures
        find_column(headers, name) is Some <==> has_header(headers, name),
        find_column(headers, name) is Some ==> {
            let k = find_column(headers, name).unwrap();
            k < headers.len() && headers[k as int] == name
        },
    decreases headers.len(),
{
    if headers.len() > 0 {
        let init = headers.drop_last();
        lemma_find_column_anywhere(init, name);
        if has_header(init, name) {
            let k = choose|k: int| 0 <= k < init.len() && #[trigger] init[k] == name;
            assert(headers[k] == name);
        }
        if has_header(headers, name) && !has_header(init, name) {
            let k = choose|k: int| 0 <= k < headers.len() && #[trigger] headers[k] == name;
            if k < init.len() {
                assert(init[k] == name);
            }
        }
    }
}

/// Missing required headers: the first one missing, in the order answers,
/// question, category, is the error, and no question comes out.
pub proof fn lemma_missing_header(
    headers: Seq<Seq<char>>,
    rows: Seq<Seq<Option<Seq<char>>>>,
    r: Result<ExamQuestions, Error>,
)
    requires
        bank_outcome(headers, rows, r),
    ensures
        !has_header(headers, "description4"@) ==> r == Err::<ExamQuestions, Error>(Error::NoDescription4Header),
        has_header(headers, "description4"@) && !has_header(headers, "title2"@)
            ==> r == Err::<ExamQuestions, Error>(Error::NoTitle2Header),
        has_header(headers, "description4"@) && has_header(headers, "title2"@) && !has_header(headers, "category"@)
            ==> r == Err::<ExamQuestions, Error>(Error::NoCategoryHeader),
{
    lemma_find_column_anywhere(headers, "description4"@);
    lemma_find_column_anywhere(headers, "title2"@);
    lemma_find_column_anywhere(headers, "category"@);
}

/// Column resolution does not depend on the order of the headers: two header
/// rows that both hold the three required names, among any others, with data
/// rows that hold the same texts under those names, lead to the same outcome.
pub proof fn lemma_column_order(
    h1: Seq<Seq<char>>,
    rows1: Seq<Seq<Option<Seq<char>>>>,
    h2: Seq<Seq<char>>,
    rows2: Seq<Seq<Option<Seq<char>>>>,
    r: Result<ExamQuestions, Error>,
)
    requires
        has_header(h1, "description4"@) && has_header(h1, "title2"@) && has_header(h1, "category"@),
        has_header(h2, "description4"@) && has_header(h2, "title2"@) && has_header(h2, "category"@),
        rows1.len() == rows2.len(),
        forall|i: int| 0 <= i < rows1.len() ==> {
            &&& named_cell(h1, #[trigger] rows1[i], "title2"@) == named_cell(h2, rows2[i], "title2"@)
            &&& named_cell(h1, rows1[i], "description4"@) == named_cell(h2, rows2[i], "description4"@)
            &&& named_cell(h1, rows1[i], "category"@) == named_cell(h2, rows2[i], "category"@)
        },
    ensures
        bank_outcome(h1, rows1, r) <==> bank_outcome(h2, rows2, r),
{
    lemma_find_column_anywhere(h1, "description4"@);
    lemma_find_column_anywhere(h1, "title2"@);
    lemma_find_column_anywhere(h1, "category"@);
    lemma_find_column_anywhere(h2, "description4"@);
    lemma_find_column_anywhere(h2, "title2"@);
    lemma_find_column_anywhere(h2, "category"@);
    let c1 = columns_of(h1)->Ok_0;
    let c2 = columns_of(h2)->Ok_0;
    assert forall|i: int| 0 <= i < rows1.len() implies row_fields(rows1[i], c1) == row_fields(#[trigger] rows2[i], c2) by {
        assert(named_cell(h1, rows1[i], "title2"@) == named_cell(h2, rows2[i], "title2"@));
    }
    assert forall|n: int| 0 <= n <= rows1.len() implies rows_valid(rows1, c1, n) == rows_valid(rows2, c2, n) by {
        if rows_valid(rows1, c1, n) {
            assert forall|j: int| 0 <= j < n implies row_error(row_fields(#[trigger] rows2[j], c2), j as nat) is None by {
                assert(row_fields(rows1[j], c1) == row_fields(rows2[j], c2));
            }
        }
        if rows_valid(rows2, c2, n) {
            assert forall|j: int| 0 <= j < n implies row_error(row_fields(#[trigger] rows1[j], c1), j as nat) is None by {
                assert(row_fields(rows1[j], c1) == row_fields(rows2[j], c2));
            }
        }
    }
    if r is Err {
        if exists|i: int| 0 <= i < rows1.len() && rows_valid(rows1, c1, i)
            && row_error(row_fields(#[trigger] rows1[i], c1), i as nat) == Some(r->Err_0) {
            let i = choose|i: int| 0 <= i < rows1.len() && rows_valid(rows1, c1, i)
                && row_error(row_fields(#[trigger] rows1[i], c1), i as nat) == Some(r->Err_0);
            assert(row_fields(rows1[i], c1) == row_fields(rows2[i], c2));
        }
        if exists|i: int| 0 <= i < rows2.len() && rows_valid(rows2, c2, i)
            && row_error(row_fields(#[trigger] rows2[i], c2), i as nat) == Some(r->Err_0) {
            let i = choose|i: int| 0 <= i < rows2.len() && rows_valid(rows2, c2, i)
                && row_error(row_fields(#[trigger] rows2[i], c2), i as nat) == Some(r->Err_0);
            assert(row_fields(rows1[i], c1) == row_fields(rows2[i], c2));
        }
    }
    if r is Ok {
        if forall|i: int| 0 <= i < rows1.len()
            ==> is_record_of(#[trigger] r->Ok_0.questions@[i], row_fields(rows1[i], c1)) {
            assert forall|i: int| 0 <= i < rows2.len()
                implies is_record_of(#[trigger] r->Ok_0.questions@[i], row_fields(rows2[i], c2)) by {
                assert(row_fields(rows1[i], c1) == row_fields(rows2[i], c2));
            }
        }
        if forall|i: int| 0 <= i < rows2.len()
            ==> is_record_of(#[trigger] r->Ok_0.questions@[i], row_fields(rows2[i], c2)) {
            assert forall|i: int| 0 <= i < rows1.len()
                implies is_record_of(#[trigger] r->Ok_0.questions@[i], row_fields(rows1[i], c1)) by {
                assert(row_fields(rows1[i], c1) == row_fields(rows2[i], c2));
            }
        }
    }
}


/// Two records hold the same values, field by field (texts by their characters).
pub open spec fn same_record(a: Question, b: Question) -> bool {
    &&& a.num == b.num
    &&& a.question@ == b.question@
    &&& a.category == b.category
    &&& a.answers.possible_answers@.map_values(|s: String| s@) == b.answers.possible_answers@.map_values(|s: String| s@)
    &&& a.answers.correct_answer == b.answers.correct_answer
    &&& a.license_classes@ == b.license_classes@
    &&& text_view(a.image_url) == text_view(b.image_url)
}

/// Two outcomes are the same: the same error, or banks equal record by record.
pub open spec fn same_outcome(r1: Result<ExamQuestions, Error>, r2: Result<ExamQuestions, Error>) -> bool {
    &&& (r1 is Ok <==> r2 is Ok)
    &&& r1 is Err ==> r1->Err_0 == r2->Err_0
    &&& r1 is Ok ==> {
        &&& r1->Ok_0.questions@.len() == r2->Ok_0.questions@.len()
        &&& forall|i: int| 0 <= i < r1->Ok_0.questions@.len()
            ==> same_record(#[trigger] r1->Ok_0.questions@[i], r2->Ok_0.questions@[i])
    }
}

/// A header row and its data rows call for one outcome only.
pub proof fn lemma_outcome_unique(
    headers: Seq<Seq<char>>,
    rows: Seq<Seq<Option<Seq<char>>>>,
    r1: Result<ExamQuestions, Error>,
    r2: Result<ExamQuestions, Error>,
)
    requires
        bank_outcome(headers, rows, r1),
        bank_outcome(headers, rows, r2),
    ensures
        same_outcome(r1, r2),
{
    if columns_of(headers) is Ok {
        let cols = columns_of(headers)->Ok_0;
        if r1 is Err {
            let i1 = choose|i: int| 0 <= i < rows.len() && rows_valid(rows, cols, i)
                && row_error(row_fields(#[trigger] rows[i], cols), i as nat) == Some(r1->Err_0);
            let i2 = choose|i: int| 0 <= i < rows.len() && rows_valid(rows, cols, i)
                && row_error(row_fields(#[trigger] rows[i], cols), i as nat) == Some(r2->Err_0);
            if i1 < i2 {
                assert(row_error(row_fields(rows[i1], cols), i1 as nat) is None);
            } else if i2 < i1 {
                assert(row_error(row_fields(rows[i2], cols), i2 as nat) is None);
            }
        }
        if r1 is Ok {
            assert forall|i: int| 0 <= i < r1->Ok_0.questions@.len()
                implies same_record(#[trigger] r1->Ok_0.questions@[i], r2->Ok_0.questions@[i]) by {
                assert(is_record_of(r1->Ok_0.questions@[i], row_fields(rows[i], cols)));
                assert(is_record_of(r2->Ok_0.questions@[i], row_fields(rows[i], cols)));
            }
        }
    }
}

/// Column order does not matter, record by record: header rows holding the
/// three required names in any order, among any others, with data rows that
/// hold the same texts under those names, give the same error or banks equal
/// field by field.
pub proof fn lemma_column_order_same_bank(
    h1: Seq<Seq<char>>,
    rows1: Seq<Seq<Option<Seq<char>>>>,
    h2: Seq<Seq<char>>,
    rows2: Seq<Seq<Option<Seq<char>>>>,
    r1: Result<ExamQuestions, Error>,
    r2: Result<ExamQuestions, Error>,
)
    requires
        has_header(h1, "description4"@) && has_header(h1, "title2"@) && has_header(h1, "category"@),
        has_header(h2, "description4"@) && has_header(h2, "title2"@) && has_header(h2, "category"@),
        rows1.len() == rows2.len(),
        forall|i: int| 0 <= i < rows1.len() ==> {
            &&& named_cell(h1, #[trigger] rows1[i], "title2"@) == named_cell(h2, rows2[i], "title2"@)
            &&& named_cell(h1, rows1[i], "description4"@) == named_cell(h2, rows2[i], "description4"@)
            &&& named_cell(h1, rows1[i], "category"@) == named_cell(h2, rows2[i], "category"@)
        },
        bank_outcome(h1, rows1, r1),
        bank_outcome(h2, rows2, r2),
    ensures
        same_outcome(r1, r2),
{
    lemma_column_order(h1, rows1, h2, rows2, r1);
    lemma_outcome_unique(h2, rows2, r1, r2);
}

} // verus!
