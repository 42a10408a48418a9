use vstd::prelude::*;
use crate::error::ResponseError;
use crate::text::{decimal_of, decimal_text, push_str, text_eq, text_of};

verus! {

/// An error body sent to a caller.
pub struct ErrorResponse {
    pub code: u16,
    pub message: String,
    pub error: String,
}

/// Errors of the artifact download path.
#[derive(Clone, Copy, Debug, PartialEq, Eq, Structural)]
pub enum CustomError {
    NotFound,
    Forbidden,
    NotFoundFile,
    Unauthorized,
    Unknown,
}

/// The kinds of I/O failure the download path tells apart.
#[derive(Clone, Copy, Debug, PartialEq, Eq, Structural)]
pub enum IoFailure {
    NotFound,
    PermissionDenied,
    Other,
}

impl CustomError {
    pub fn error_name(&self) -> (r: String)
        ensures
            *self == CustomError::NotFound ==> r@ == "NotFound"@,
            *self == CustomError::Forbidden ==> r@ == "Forbidden"@,
            *self == CustomError::NotFoundFile ==> r@ == "NotFoundFile"@,
            *self == CustomError::Unauthorized ==> r@ == "Unauthorized"@,
            *self == CustomError::Unknown ==> r@ == "Unknown"@,
    {
        match self {
            CustomError::NotFound => text_of("NotFound"),
            CustomError::Forbidden => text_of("Forbidden"),
            CustomError::NotFoundFile => text_of("NotFoundFile"),
            CustomError::Unauthorized => text_of("Unauthorized"),
            CustomError::Unknown => text_of("Unknown"),
        }
    }

    /// The HTTP status the error is answered with.
    pub fn status_code(&self) -> (r: u16)
        ensures
            *self == CustomError::NotFound || *self == CustomError::NotFoundFile ==> r == 404,
            *self == CustomError::Unauthorized ==> r == 401,
            *self == CustomError::Forbidden ==> r == 403,
            *self == CustomError::Unknown ==> r == 500,
    {
        match self {
            CustomError::NotFound => 404,
            CustomError::NotFoundFile => 404,
            CustomError::Unauthorized => 401,
            CustomError::Forbidden => 403,
            CustomError::Unknown => 500,
        }
    }
}

/// The download error for an I/O failure.
pub fn map_io_error(e: IoFailure) -> (r: CustomError)
    ensures
        e == IoFailure::NotFound ==> r == CustomError::NotFound,
        e == IoFailure::PermissionDenied ==> r == CustomError::Forbidden,
        e == IoFailure::Other ==> r == CustomError::Unknown,
{
    match e {
        IoFailure::NotFound => CustomError::NotFound,
        IoFailure::PermissionDenied => CustomError::Forbidden,
        IoFailure::Other => CustomError::Unknown,
    }
}

/// Whether any error was collected.
pub fn is_check_on_errors_message_and_code(errors: &Vec<ResponseError>) -> (r: bool)
    ensures
        r == (errors.len() > 0),
{
    !errors.is_empty()
}

/// The last error collected.
pub fn get_last_error_message_and_code(errors: &Vec<ResponseError>) -> (r: ResponseError)
    requires
        errors.len() > 0,
    ensures
        r.0 == errors@.last().0,
        r.1@ == errors@.last().1@,
{
    let e = &errors[errors.len() - 1];
    (e.0, e.1.clone())
}

/// The first error collected.
pub fn get_first_error_message_and_code(errors: &Vec<ResponseError>) -> (r: ResponseError)
    requires
        errors.len() > 0,
    ensures
        r.0 == errors@[0].0,
        r.1@ == errors@[0].1@,
{
    let e = &errors[0];
    (e.0, e.1.clone())
}

/// An error when the chunks built from file `id` are none.
pub fn chunk_is_empty(unwrap_chunks: &Vec<Vec<Vec<String>>>, id: u32) -> (r: Result<(), ResponseError>)
    ensures
        r is Ok <==> unwrap_chunks.len() > 0,
        r matches Err(e) ==> e.0 == 4334304 && e.1@ == "Файл под id "@ + decimal_of(id as nat) + " не содержит в себе нужных вам данных"@,
{
    if unwrap_chunks.len() == 0 {
        let mut message = text_of("Файл под id ");
        let digits = decimal_text(id as u64);
        push_str(&mut message, digits.as_str());
        push_str(&mut message, " не содержит в себе нужных вам данных");
        Err((4334304, message))
    } else {
        Ok(())
    }
}

/// A user as the identity service describes them.
#[derive(Debug)]
pub struct UserInfo {
    pub id: Option<String>,
    pub username: Option<String>,
    pub first_name: Option<String>,
    pub last_name: Option<String>,
    pub email: Option<String>,
    pub birthday: Option<String>,
    pub gender: Option<String>,
    pub pictureurl: Option<String>,
    pub merchant_id: Option<String>,
    pub provider_id: Option<String>,
    pub commission: Option<String>,
    pub user_type: Option<String>,
    pub status: Option<String>,
    pub parent_id: Option<String>,
    pub region_id: Option<String>,
    pub vendor: Option<Vec<bool>>,
}

impl UserInfo {
    /// The field's text, or "None" when it is absent.
    pub fn get_pub_fields(field: &Option<String>) -> (r: String)
        ensures
            field matches Some(s) ==> r@ == s@,
            field is None ==> r@ == "None"@,
    {
        match field {
            None => text_of("None"),
            Some(s) => s.clone(),
        }
    }

    /// The user id, or an error when it is the text "None".
    pub fn check_on_error(user_id: String) -> (r: Result<String, ResponseError>)
        ensures
            user_id@ == "None"@ ==> (r matches Err(e) && e.0 == 1334302
                && e.1@ == "Не удалось создать или найти папку для текущего пользователя"@),
            user_id@ != "None"@ ==> r == Ok::<String, ResponseError>(user_id),
    {
        if text_eq(user_id.as_str(), "None") {
            Err((1334302, text_of("Не удалось создать или найти папку для текущего пользователя")))
        } else {
            Ok(user_id)
        }
    }
}

} // verus!
