//! The errors of the library.

use arrow2::error::Error as ArrowError;
use vstd::prelude::*;
use vstd::string::StringExecFns;

verus! {

/// Why a read failed.
#[derive(Debug)]
pub enum ErrorCode {
    /// The stored data are not what the reader expects of them.
    StorageOther(String),
    /// `arrow2` refused the data.
    Arrow(ArrowError),
}

/// The mathematical form of [`ErrorCode`].
pub ghost enum ErrorCodeView {
    StorageOther(Seq<char>),
    Arrow(ArrowError),
}

impl View for ErrorCode {
    type V = ErrorCodeView;

    open spec fn view(&self) -> ErrorCodeView {
        match self {
            ErrorCode::StorageOther(message) => ErrorCodeView::StorageOther(message@),
            ErrorCode::Arrow(e) => ErrorCodeView::Arrow(*e),
        }
    }
}

/// A result with its error in mathematical form.
pub open spec fn result_view<T>(r: Result<T, ErrorCode>) -> Result<T, ErrorCodeView> {
    match r {
        Ok(value) => Ok(value),
        Err(e) => Err(e@),
    }
}

impl ErrorCode {
    /// The error for stored data that are not as expected.
    pub fn storage_other(message: &str) -> (r: ErrorCode)
        ensures
            r@ == ErrorCodeView::StorageOther(message@),
    {
        ErrorCode::StorageOther(message.to_owned())
    }

    /// The error for a field that decodes to no array.
    pub fn no_array(field_name: &str) -> (r: ErrorCode)
        ensures
            r@ == no_array_error(field_name@),
    {
        let mut message: String = "unexpected deserialization error, no array found for field ".to_owned();
        message.append(field_name);
        message.append(" ");
        ErrorCode::StorageOther(message)
    }
}

/// The error for a field that decodes to no array: the message names the field.
pub open spec fn no_array_error(field_name: Seq<char>) -> ErrorCodeView {
    ErrorCodeView::StorageOther(
        "unexpected deserialization error, no array found for field "@ + field_name + " "@,
    )
}

} // verus!
