//! Errors that remember where they arose.

use vstd::prelude::*;
use vstd::std_specs::convert::IntoSpec;

verus! {

/// The character of the decimal digit `d`.
pub open spec fn digit_char(d: nat) -> char {
    ((48 + d) as u8) as char
}

/// The decimal digits of `n`, without leading zeros.
pub open spec fn decimal(n: nat) -> Seq<char>
    decreases n,
{
    if n < 10 {
        seq![digit_char(n)]
    } else {
        decimal(n / 10).push(digit_char(n % 10))
    }
}

/// The text of a place in a source file: file, line and column, with a
/// colon between them.
pub open spec fn location_text(file: Seq<char>, line: u32, column: u32) -> Seq<char> {
    file.push(':') + decimal(line as nat).push(':') + decimal(column as nat)
}

/// Appends the decimal digits of `n` to `out`.
pub fn push_decimal(out: &mut String, n: u32)
    ensures
        final(out)@ == old(out)@ + decimal(n as nat),
    decreases n,
{
    if n >= 10 {
        push_decimal(out, n / 10);
    }
    let d: u8 = (n % 10) as u8;
    out.push((48 + d) as char);
    proof {
        if n < 10 {
            assert(out@ =~= old(out)@ + decimal(n as nat));
        } else {
            assert(out@ =~= old(out)@ + decimal(n as nat));
        }
    }
}

/// A place in a source file.
#[derive(Debug, PartialEq, Eq, PartialOrd, Ord, Hash)]
pub struct Location {
    file: String,
    line: u32,
    column: u32,
}

impl Location {
    pub closed spec fn spec_file(&self) -> Seq<char> {
        self.file@
    }

    pub closed spec fn spec_line(&self) -> u32 {
        self.line
    }

    pub closed spec fn spec_column(&self) -> u32 {
        self.column
    }

    /// The place at `line` and `column` of `file`.
    pub fn new(file: &str, line: u32, column: u32) -> (r: Location)
        ensures
            r.spec_file() == file@,
            r.spec_line() == line,
            r.spec_column() == column,
    {
        Location { file: file.to_owned(), line, column }
    }

    pub fn file(&self) -> (r: &str)
        ensures
            r@ == self.spec_file(),
    {
        self.file.as_str()
    }

    pub fn line(&self) -> (r: u32)
        ensures
            r == self.spec_line(),
    {
        self.line
    }

    pub fn column(&self) -> (r: u32)
        ensures
            r == self.spec_column(),
    {
        self.column
    }

    /// The place as text: `file:line:column`.
    pub fn to_text(&self) -> (r: String)
        ensures
            r@ == location_text(self.spec_file(), self.spec_line(), self.spec_column()),
    {
        let mut out = self.file.clone();
        out.push(':');
        push_decimal(&mut out, self.line);
        out.push(':');
        push_decimal(&mut out, self.column);
        assert(out@ =~= location_text(self.spec_file(), self.spec_line(), self.spec_column()));
        out
    }
}

impl Clone for Location {
    fn clone(&self) -> (r: Location)
        ensures
            r.spec_file() == self.spec_file(),
            r.spec_line() == self.spec_line(),
            r.spec_column() == self.spec_column(),
    {
        Location { file: self.file.clone(), line: self.line, column: self.column }
    }
}

struct LocationErrorInner<E> {
    error: E,
    location: Location,
}

/// An error together with the place where it arose.
pub struct LocationError<E> {
    inner: Box<LocationErrorInner<E>>,
}

impl<E> LocationError<E> {
    /// The error that is held.
    pub closed spec fn spec_error(&self) -> E {
        self.inner.error
    }

    /// The place that is held.
    pub closed spec fn spec_location(&self) -> Location {
        self.inner.location
    }

    /// Holds `error` together with the place `location`.
    pub fn new(error: E, location: Location) -> (r: LocationError<E>)
        ensures
            r.spec_error() == error,
            r.spec_location() == location,
    {
        LocationError { inner: Box::new(LocationErrorInner { error, location }) }
    }

    /// Converts `error` and holds it together with the place `location`.
    pub fn from2<E2: Into<E>>(error: E2, location: Location) -> (r: LocationError<E>)
        ensures
            <E2 as IntoSpec<E>>::obeys_into_spec() ==> r.spec_error() == <E2 as IntoSpec<
                E,
            >>::into_spec(error),
            r.spec_location() == location,
    {
        LocationError::new(error.into(), location)
    }

    pub fn error(&self) -> (r: &E)
        ensures
            *r == self.spec_error(),
    {
        &self.inner.error
    }

    pub fn error_mut(&mut self) -> (r: &mut E)
        ensures
            *r == old(self).spec_error(),
            final(self).spec_error() == *final(r),
            final(self).spec_location() == old(self).spec_location(),
    {
        &mut self.inner.error
    }

    pub fn into_error(self) -> (r: E)
        ensures
            r == self.spec_error(),
    {
        let inner = *self.inner;
        inner.error
    }

    pub fn location(&self) -> (r: &Location)
        ensures
            *r == self.spec_location(),
    {
        &self.inner.location
    }

    /// Replaces the error by what `map` makes of it; the place stays.
    pub fn map<F>(self, map: impl FnOnce(E) -> F) -> (r: LocationError<F>)
        requires
            map.requires((self.spec_error(),)),
        ensures
            map.ensures((self.spec_error(),), r.spec_error()),
            r.spec_location() == self.spec_location(),
    {
        let inner = *self.inner;
        let error = map(inner.error);
        LocationError { inner: Box::new(LocationErrorInner { error, location: inner.location }) }
    }

    /// Makes a new error of the one held, by reference; the place is copied.
    pub fn map_ref<'a, F>(&'a self, map: impl FnOnce(&'a E) -> F) -> (r: LocationError<F>)
        requires
            map.requires((&self.spec_error(),)),
        ensures
            map.ensures((&self.spec_error(),), r.spec_error()),
            r.spec_location().spec_file() == self.spec_location().spec_file(),
            r.spec_location().spec_line() == self.spec_location().spec_line(),
            r.spec_location().spec_column() == self.spec_location().spec_column(),
    {
        let error = map(&self.inner.error);
        LocationError {
            inner: Box::new(LocationErrorInner { error, location: self.inner.location.clone() }),
        }
    }
}

/// An error known by its message alone.
#[derive(Debug)]
pub struct AnyError {
    message: String,
}

impl AnyError {
    pub closed spec fn spec_message(&self) -> Seq<char> {
        self.message@
    }

    /// The error with the message `msg`.
    pub fn msg(msg: &str) -> (r: AnyError)
        ensures
            r.spec_message() == msg@,
    {
        AnyError { message: msg.to_owned() }
    }

    pub fn message(&self) -> (r: &str)
        ensures
            r@ == self.spec_message(),
    {
        self.message.as_str()
    }
}

/// An error that is its message.
#[derive(Debug, Clone)]
pub struct StringError(pub String);

/// An error that has been turned into text: its message, and the message
/// of what caused it, if that is known.
#[derive(Debug)]
pub struct StringifiedError {
    message: String,
    source: Option<StringError>,
}

impl StringifiedError {
    pub closed spec fn spec_message(&self) -> Seq<char> {
        self.message@
    }

    pub closed spec fn spec_source(&self) -> Option<Seq<char>> {
        match self.source {
            Some(s) => Some(s.0@),
            None => None,
        }
    }

    /// The error with the message `message` and no cause.
    pub fn from_string(message: String) -> (r: StringifiedError)
        ensures
            r.spec_message() == message@,
            r.spec_source() is None,
    {
        StringifiedError { message, source: None }
    }

    /// The error with the message `message`, caused by an error with the
    /// message `source`.
    pub fn with_source(message: String, source: String) -> (r: StringifiedError)
        ensures
            r.spec_message() == message@,
            r.spec_source() == Some(source@),
    {
        StringifiedError { message, source: Some(StringError(source)) }
    }

    pub fn message(&self) -> (r: &str)
        ensures
            r@ == self.spec_message(),
    {
        self.message.as_str()
    }

    /// The message of the cause, if it is known.
    pub fn source(&self) -> (r: Option<&StringError>)
        ensures
            match r {
                Some(s) => self.spec_source() == Some(s.0@),
                None => self.spec_source() is None,
            },
    {
        match &self.source {
            None => None,
            Some(source) => Some(source),
        }
    }
}

/// An error of a script, as text: the name of its type, its message, and
/// the trace of the calls that led to it, if there is one.
#[derive(Debug)]
pub struct PyErrString {
    pub kind: String,
    pub message: String,
    pub traceback: Option<StringError>,
}

impl PyErrString {
    /// The error in one line: the name of its type, a colon, its message.
    pub fn to_text(&self) -> (r: String)
        ensures
            r@ == self.kind@ + ": "@ + self.message@,
    {
        let mut out = self.kind.clone();
        out.append(": ");
        out.append(self.message.as_str());
        out
    }
}

} // verus!
