//! What is read out of JSON that the controller answers with.

use vstd::prelude::*;

use crate::text::optional_text;

verus! {

/// A field of a JSON object, as far as it is told apart.
pub enum JsonField {
    /// The text is not JSON, is no object, or has no such field.
    Missing,
    /// A number, with its value if it is whole, not negative, and fits.
    Number(Option<u64>),
    Text(String),
    Other,
}

pub ghost enum FieldView {
    Missing,
    Number(Option<u64>),
    Text(Seq<char>),
    Other,
}

impl View for JsonField {
    type V = FieldView;

    open spec fn view(&self) -> FieldView {
        match *self {
            JsonField::Missing => FieldView::Missing,
            JsonField::Number(value) => FieldView::Number(value),
            JsonField::Text(text) => FieldView::Text(text@),
            JsonField::Other => FieldView::Other,
        }
    }
}

/// The field `name` of what `serde_json::from_str` reads from a text.
pub uninterp spec fn json_field_of(text: Seq<char>, name: Seq<char>) -> FieldView;

/// `serde_json::from_str`, and `serde_json::Value::get` of what it reads: the field depends on
/// the text and the name alone.
#[verifier::external_body]
pub(crate) fn json_field(text: &str, name: &str) -> (r: JsonField)
    ensures
        r@ == json_field_of(text@, name@),
{
    match serde_json::from_str::<serde_json::Value>(text) {
        Ok(value) => match value.get(name) {
            Some(serde_json::Value::Number(number)) => JsonField::Number(number.as_u64()),
            Some(serde_json::Value::String(text)) => JsonField::Text(text.clone()),
            Some(_) => JsonField::Other,
            None => JsonField::Missing,
        },
        Err(_) => JsonField::Missing,
    }
}

/// The string that a JSON text is, if it is one.
pub uninterp spec fn json_string_of(text: Seq<char>) -> Option<Seq<char>>;

/// `serde_json::from_str` for a string: the result depends on the text alone.
#[verifier::external_body]
pub(crate) fn json_string(text: &str) -> (r: Option<String>)
    ensures
        optional_text(r) == json_string_of(text@),
{
    serde_json::from_str::<String>(text).ok()
}

/// The number of a new job, under the first of the two names that occurs.
pub open spec fn number_in(job: FieldView, base: FieldView) -> Option<u64> {
    match if job is Missing {
        base
    } else {
        job
    } {
        FieldView::Number(value) => value,
        _ => None,
    }
}

/// The number in the first of two fields that is there.
pub fn first_number(job: &JsonField, base: &JsonField) -> (r: Option<u64>)
    ensures
        r == number_in(job@, base@),
{
    match job {
        JsonField::Missing => match base {
            JsonField::Number(value) => *value,
            _ => None,
        },
        JsonField::Number(value) => *value,
        _ => None,
    }
}

/// The number of the job that an answer tells of.
pub fn new_job_id(body: &str) -> (r: Option<u64>)
    ensures
        r == number_in(json_field_of(body@, "job_id"@), json_field_of(body@, "base_job_id"@)),
{
    first_number(&json_field(body, "job_id"), &json_field(body, "base_job_id"))
}

/// The number of a file, from an answer that is that number or holds it.
pub open spec fn file_id_in(whole: Option<Seq<char>>, field: FieldView) -> Seq<char> {
    match whole {
        Some(id) => id,
        None => match field {
            FieldView::Text(id) => id,
            _ => ""@,
        },
    }
}

/// The number of a file, as an answer that is a string, or a field, gives it.
pub fn file_id_from(whole: Option<String>, field: JsonField) -> (r: String)
    ensures
        r@ == file_id_in(optional_text(whole), field@),
{
    match whole {
        Some(id) => id,
        None => match field {
            JsonField::Text(id) => id,
            _ => "".to_string(),
        },
    }
}

/// The number of the file that an answer tells of; empty if it tells of none.
pub fn uploaded_file_id(body: &str) -> (r: String)
    ensures
        r@ == file_id_in(json_string_of(body@), json_field_of(body@, "file_id"@)),
{
    file_id_from(json_string(body), json_field(body, "file_id"))
}

/// The number of a new job is that under the first of its names that is there, if it is a number.
pub proof fn law_new_jobs_are_told_by_number(job: FieldView, base: FieldView, n: u64)
    ensures
        job == FieldView::Number(Some(n)) ==> number_in(job, base) == Some(n),
        job is Missing && base == FieldView::Number(Some(n)) ==> number_in(job, base) == Some(n),
        job is Missing && base is Missing ==> number_in(job, base) is None,
        job is Text || job is Other ==> number_in(job, base) is None,
{
}

/// The number of a file is the whole answer where that is a text, and else what its field says;
/// without either it is empty.
pub proof fn law_files_are_told_by_number(whole: Option<Seq<char>>, field: FieldView)
    ensures
        whole is Some ==> file_id_in(whole, field) == whole->0,
        whole is None ==> (field matches FieldView::Text(id) ==> file_id_in(whole, field) == id),
        whole is None && !(field is Text) ==> file_id_in(whole, field).len() == 0,
{
    reveal_strlit("");
}

} // verus!
