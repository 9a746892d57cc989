//! Extraction of a driving-theory question bank from a spreadsheet whose
//! answer cells hold presentational markup.

pub mod category;
pub mod markup;
pub mod questions;
pub mod text;

pub use category::{LicenseClass, QuestionCategory};
pub use markup::{decode_tokens, parse_answers, Answers, Attribute, Tag, Token};
pub use questions::{build_question, question_number_exec, resolve_columns, Columns, Error, ExamQuestions, Question};
