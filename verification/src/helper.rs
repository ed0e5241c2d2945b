//! Helpers for reporting errors from code that walks a layout.

use vstd::prelude::*;

verus! {

/// Turns messages into the errors of one converter. What `err` promises of
/// its error for a message holds of every failure made for that message.
pub trait ErrorHelper {
    /// The errors that this helper makes.
    type Error;

    /// The error for `msg`.
    fn err(&self, msg: &str) -> Self::Error;

    /// The failure that holds the error that `err` makes for `msg`.
    fn fail<T>(&self, msg: &str) -> (r: Result<T, Self::Error>)
        ensures
            r matches Err(e) && call_ensures(Self::err, (self, msg), e),
    {
        Err(self.err(msg))
    }

    /// The failure for `msg` that stands for the error `err`: it holds an
    /// error that `err` makes for `msg`. Implementers may keep the cause.
    fn wrap_err<T, E>(&self, err: E, msg: &str) -> (r: Result<T, Self::Error>)
        ensures
            r matches Err(e) && call_ensures(Self::err, (self, msg), e),
    {
        self.fail(msg)
    }

    /// What `opt` holds, or the failure for `msg` where it holds nothing.
    fn unwrap<T>(&self, opt: Option<T>, msg: &str) -> (r: Result<T, Self::Error>)
        ensures
            opt matches Some(v) ==> r == Ok::<T, Self::Error>(v),
            opt is None ==> (r matches Err(e) && call_ensures(Self::err, (self, msg), e)),
    {
        match opt {
            Some(val) => Ok(val),
            None => self.fail(msg),
        }
    }

    /// Nothing where `b` holds, else the failure for `msg`.
    fn check(&self, b: bool, msg: &str) -> (r: Result<(), Self::Error>)
        ensures
            r is Ok <==> b,
            r matches Err(e) ==> call_ensures(Self::err, (self, msg), e),
    {
        if b {
            Ok(())
        } else {
            self.fail(msg)
        }
    }

    /// The failure for `msg`, whatever `res` holds. Implementers that read
    /// the errors of `res` hand on its value and fail for `msg` otherwise.
    fn ok<T, E>(&self, res: Result<T, E>, msg: &str) -> (r: Result<T, Self::Error>)
        ensures
            res matches Ok(v) ==> r is Err || r == Ok::<T, Self::Error>(v),
            res is Err ==> r is Err,
            r matches Err(e) ==> call_ensures(Self::err, (self, msg), e),
    {
        self.fail(msg)
    }
}

/// Unwrapping with an [`ErrorHelper`], written behind the value.
pub trait Unwrapper: Sized {
    /// What a success holds.
    type Ok;

    /// The value of a success.
    spec fn value(self) -> Option<Self::Ok>;

    /// What `self` holds, or the failure that `helper` makes for `msg`.
    fn or_handle<H: ErrorHelper>(self, helper: &H, msg: &str) -> (r: Result<Self::Ok, H::Error>)
        ensures
            self.value() matches Some(v) ==> r == Ok::<Self::Ok, H::Error>(v),
            self.value() is None ==> (r matches Err(e) && call_ensures(H::err, (helper, msg), e)),
    ;
}

impl<T> Unwrapper for Option<T> {
    type Ok = T;

    open spec fn value(self) -> Option<T> {
        self
    }

    fn or_handle<H: ErrorHelper>(self, helper: &H, msg: &str) -> (r: Result<T, H::Error>) {
        match self {
            Some(t) => Ok(t),
            None => helper.fail(msg),
        }
    }
}

impl<T, E> Unwrapper for Result<T, E> {
    type Ok = T;

    open spec fn value(self) -> Option<T> {
        match self {
            Ok(t) => Some(t),
            Err(_) => None,
        }
    }

    fn or_handle<H: ErrorHelper>(self, helper: &H, msg: &str) -> (r: Result<T, H::Error>) {
        match self {
            Ok(t) => Ok(t),
            Err(_) => helper.fail(msg),
        }
    }
}

/// Where in a conversion an error arose.
#[derive(Debug, Clone)]
pub enum ErrorContext {
    Library(String),
    Cell(String),
    Abstract,
    Impl,
    Instance(String),
    Array(String),
    Units,
    Geometry,
    Unknown,
}

} // verus!
