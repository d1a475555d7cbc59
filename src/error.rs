use vstd::prelude::*;

use crate::business_error::BusinessError;

verus! {

/// The status codes that the foreign runtime reports for a failed call.
#[derive(Clone, Copy, Debug, PartialEq, Eq, Structural)]
pub enum AniErrorCode {
    Error,
    InvalidArgs,
    InvalidType,
    InvalidDescriptor,
    IncorrectRef,
    PendingError,
    NotFound,
    AlreadyBinded,
    OutOfRef,
    OutOfMemory,
    OutOfRange,
    BufferTooSmall,
    InvalidVersion,
}

/// The status number of each code, as the runtime numbers them.
pub open spec fn code_number(c: AniErrorCode) -> u32 {
    match c {
        AniErrorCode::Error => 1,
        AniErrorCode::InvalidArgs => 2,
        AniErrorCode::InvalidType => 3,
        AniErrorCode::InvalidDescriptor => 4,
        AniErrorCode::IncorrectRef => 5,
        AniErrorCode::PendingError => 6,
        AniErrorCode::NotFound => 7,
        AniErrorCode::AlreadyBinded => 8,
        AniErrorCode::OutOfRef => 9,
        AniErrorCode::OutOfMemory => 10,
        AniErrorCode::OutOfRange => 11,
        AniErrorCode::BufferTooSmall => 12,
        AniErrorCode::InvalidVersion => 13,
    }
}

impl AniErrorCode {
    pub fn number(&self) -> (r: u32)
        ensures
            r == code_number(*self),
    {
        match self {
            AniErrorCode::Error => 1,
            AniErrorCode::InvalidArgs => 2,
            AniErrorCode::InvalidType => 3,
            AniErrorCode::InvalidDescriptor => 4,
            AniErrorCode::IncorrectRef => 5,
            AniErrorCode::PendingError => 6,
            AniErrorCode::NotFound => 7,
            AniErrorCode::AlreadyBinded => 8,
            AniErrorCode::OutOfRef => 9,
            AniErrorCode::OutOfMemory => 10,
            AniErrorCode::OutOfRange => 11,
            AniErrorCode::BufferTooSmall => 12,
            AniErrorCode::InvalidVersion => 13,
        }
    }

    /// The code for a status number; `None` for a number no code has.
    pub fn from_number(n: u32) -> (r: Option<AniErrorCode>)
        ensures
            match r {
                Some(c) => code_number(c) == n,
                None => n < 1 || n > 13,
            },
    {
        match n {
            1 => Some(AniErrorCode::Error),
            2 => Some(AniErrorCode::InvalidArgs),
            3 => Some(AniErrorCode::InvalidType),
            4 => Some(AniErrorCode::InvalidDescriptor),
            5 => Some(AniErrorCode::IncorrectRef),
            6 => Some(AniErrorCode::PendingError),
            7 => Some(AniErrorCode::NotFound),
            8 => Some(AniErrorCode::AlreadyBinded),
            9 => Some(AniErrorCode::OutOfRef),
            10 => Some(AniErrorCode::OutOfMemory),
            11 => Some(AniErrorCode::OutOfRange),
            12 => Some(AniErrorCode::BufferTooSmall),
            13 => Some(AniErrorCode::InvalidVersion),
            _ => None,
        }
    }

    /// The code's name, as it is printed.
    pub fn name(&self) -> (r: &'static str)
        ensures
            r@ == code_name(*self)@,
    {
        match self {
            AniErrorCode::Error => "Error",
            AniErrorCode::InvalidArgs => "InvalidArgs",
            AniErrorCode::InvalidType => "InvalidType",
            AniErrorCode::InvalidDescriptor => "InvalidDescriptor",
            AniErrorCode::IncorrectRef => "IncorrectRef",
            AniErrorCode::PendingError => "PendingError",
            AniErrorCode::NotFound => "NotFound",
            AniErrorCode::AlreadyBinded => "AlreadyBinded",
            AniErrorCode::OutOfRef => "OutOfRef",
            AniErrorCode::OutOfMemory => "OutOfMemory",
            AniErrorCode::OutOfRange => "OutOfRange",
            AniErrorCode::BufferTooSmall => "BufferTooSmall",
            AniErrorCode::InvalidVersion => "InvalidVersion",
        }
    }
}

pub open spec fn code_name(c: AniErrorCode) -> &'static str {
    match c {
        AniErrorCode::Error => "Error",
        AniErrorCode::InvalidArgs => "InvalidArgs",
        AniErrorCode::InvalidType => "InvalidType",
        AniErrorCode::InvalidDescriptor => "InvalidDescriptor",
        AniErrorCode::IncorrectRef => "IncorrectRef",
        AniErrorCode::PendingError => "PendingError",
        AniErrorCode::NotFound => "NotFound",
        AniErrorCode::AlreadyBinded => "AlreadyBinded",
        AniErrorCode::OutOfRef => "OutOfRef",
        AniErrorCode::OutOfMemory => "OutOfMemory",
        AniErrorCode::OutOfRange => "OutOfRange",
        AniErrorCode::BufferTooSmall => "BufferTooSmall",
        AniErrorCode::InvalidVersion => "InvalidVersion",
    }
}

/// What went wrong, by the bridge's own taxonomy.
#[derive(Clone, Copy, Debug, PartialEq, Eq, Structural)]
pub enum ErrorKind {
    /// A class, enum, method, field or namespace was not found by name.
    Lookup,
    /// A field, property, element or record entry could not be read or written.
    Access,
    /// An object or array could not be allocated.
    Construction,
    /// A value of a type the foreign runtime cannot hold (unsigned or 128-bit
    /// integers, sequences of unknown length).
    UnsupportedType,
    /// A string or character could not be converted.
    Conversion,
    /// The current thread holds no environment.
    ThreadState,
    /// No variant of a union matched a foreign value.
    VariantResolution,
    /// Any other failure reported by the runtime.
    Runtime,
}

/// An error of the bridge: its kind, the runtime's status code if there was
/// one, and a message.
#[derive(Debug)]
pub struct AniError {
    pub kind: ErrorKind,
    pub code: Option<AniErrorCode>,
    pub message: String,
}

impl AniError {
    pub fn message(s: String) -> (r: Self)
        ensures
            r.kind == ErrorKind::Runtime,
            r.code.is_none(),
            r.message@ == s@,
    {
        AniError { kind: ErrorKind::Runtime, code: None, message: s }
    }

    pub fn literal(s: &str) -> (r: Self)
        ensures
            r.kind == ErrorKind::Runtime,
            r.code.is_none(),
            r.message@ == s@,
    {
        AniError { kind: ErrorKind::Runtime, code: None, message: String::from_str(s) }
    }

    /// An error of the given kind, with no status code.
    pub fn of_kind(kind: ErrorKind, s: &str) -> (r: Self)
        ensures
            r.kind == kind,
            r.code.is_none(),
            r.message@ == s@,
    {
        AniError { kind, code: None, message: String::from_str(s) }
    }

    /// An error for a status number that the runtime returned.
    pub fn from_code(message: String, code: u32) -> (r: Self)
        ensures
            r.kind == ErrorKind::Runtime,
            r.message@ == message@,
            match r.code {
                Some(c) => code_number(c) == code,
                None => code < 1 || code > 13,
            },
    {
        AniError { kind: ErrorKind::Runtime, code: AniErrorCode::from_number(code), message }
    }

    pub fn kind(&self) -> (r: ErrorKind)
        ensures
            r == self.kind,
    {
        self.kind
    }

    pub fn text(&self) -> (r: &str)
        ensures
            r@ == self.message@,
    {
        self.message.as_str()
    }

    /// The error as it is printed: `"<code>: <message>"`, or the message
    /// alone when there is no status code.
    pub fn describe(&self) -> (r: String)
        ensures
            match self.code {
                Some(c) => r@ == code_name(c)@ + ": "@ + self.message@,
                None => r@ == self.message@,
            },
    {
        match self.code {
            Some(c) => {
                let head = String::from_str(c.name());
                let head = head.concat(": ");
                head.concat(self.message.as_str())
            },
            None => self.message.clone(),
        }
    }

    /// The business error that carries this error across the boundary: the
    /// status number as its code (-1 when there is none) and the message.
    pub fn into_business_error(self) -> (r: BusinessError)
        ensures
            r.code == business_code(self.code),
            r.message == self.message,
    {
        let code: i32 = match self.code {
            Some(c) => c.number() as i32,
            None => -1i32,
        };
        BusinessError::new(code, self.message)
    }
}

pub open spec fn business_code(code: Option<AniErrorCode>) -> i32 {
    match code {
        Some(c) => code_number(c) as i32,
        None => -1i32,
    }
}

impl From<AniError> for BusinessError {
    fn from(value: AniError) -> (r: BusinessError) {
        value.into_business_error()
    }
}

impl vstd::std_specs::convert::FromSpecImpl<AniError> for BusinessError {
    open spec fn obeys_from_spec() -> bool {
        true
    }

    open spec fn from_spec(v: AniError) -> BusinessError {
        BusinessError { code: business_code(v.code), message: v.message }
    }
}

} // verus!

verus! {

/// Surfaces a native failure to the foreign caller at the boundary of a
/// native entry point: the error becomes a business error (its status
/// number as the code, -1 without one) that is raised in the environment.
pub fn throw_ani_error(env: &mut crate::env::AniEnv, e: AniError) -> (r: crate::env::AniRef)
    requires
        old(env).wf(),
    ensures
        final(env).wf(),
        final(env).extends(old(env)),
        final(env).pending_error() == Some(r.handle),
        r.handle < final(env).objects().len(),
        final(env).objects()[r.handle as int] matches crate::env::Obj::Error(c, m) && c == Some(
            business_code(e.code),
        ) && m@ == e.message@,
{
    let b = e.into_business_error();
    env.throw_business_error(b.code, b.message.as_str())
}

/// Ends a native entry point: a result passes through; an error is raised
/// as a business error and the caller gets the `undefined` sentinel, since
/// the call must return some value.
pub fn finish_native_call(
    env: &mut crate::env::AniEnv,
    res: Result<crate::env::AniRef, AniError>,
) -> (r: crate::env::AniRef)
    requires
        old(env).wf(),
    ensures
        final(env).wf(),
        final(env).extends(old(env)),
        res is Ok ==> r == res->Ok_0 && *final(env) == *old(env),
        res is Err ==> {
            &&& r.handle == crate::env::UNDEFINED_HANDLE
            &&& final(env).pending_error() matches Some(h) && h < final(env).objects().len() && (final(env).objects()[h as int] matches crate::env::Obj::Error(c, m)
                && c == Some(business_code(res->Err_0.code)) && m@ == res->Err_0.message@)
        },
{
    proof {
        env.lemma_extends_refl();
    }
    match res {
        Ok(r) => r,
        Err(e) => {
            throw_ani_error(env, e);
            env.undefined()
        },
    }
}

} // verus!
