use vstd::prelude::*;

verus! {

/// An error surfaced to the foreign caller: a numeric code and a message.
#[derive(Debug)]
pub struct BusinessError {
    pub code: i32,
    pub message: String,
}

impl BusinessError {
    pub fn new(code: i32, message: String) -> (r: Self)
        ensures
            r.code == code,
            r.message == message,
    {
        BusinessError { code, message }
    }

    pub fn new_static(code: i32, message: &str) -> (r: Self)
        ensures
            r.code == code,
            r.message@ == message@,
    {
        BusinessError { code, message: String::from_str(message) }
    }

    /// The error raised when the caller lacks a permission.
    pub fn permission() -> (r: Self)
        ensures
            r.code == 201,
            r.message@ == "Permission denied"@,
    {
        Self::new_static(201, "Permission denied")
    }

    /// The error raised when an argument is malformed.
    pub fn parameter() -> (r: Self)
        ensures
            r.code == 401,
            r.message@ == "Parameter error"@,
    {
        Self::new_static(401, "Parameter error")
    }

    pub fn code(&self) -> (r: i32)
        ensures
            r == self.code,
    {
        self.code
    }

    pub fn message(&self) -> (r: &str)
        ensures
            r@ == self.message@,
    {
        self.message.as_str()
    }
}

} // verus!
