use vstd::prelude::*;

verus! {

/// Error codes reported to Pawn through `mysql_errno`.
#[derive(Debug, Clone, Copy, PartialEq, Eq, Structural)]
pub enum MysqlError {
    NoError,
    ConnectionFailed,
    InvalidOptions,
    InvalidConnection,
    PingFailed,
    QueryFailed,
    NoCacheActive,
    InvalidOrm,
    OrmKeyNotSet,
}

/// The number Pawn sees for each error.
pub open spec fn error_code(e: MysqlError) -> i32 {
    match e {
        MysqlError::NoError => 0,
        MysqlError::ConnectionFailed => 1,
        MysqlError::InvalidOptions => 2,
        MysqlError::InvalidConnection => 3,
        MysqlError::PingFailed => 4,
        MysqlError::QueryFailed => 5,
        MysqlError::NoCacheActive => 6,
        MysqlError::InvalidOrm => 7,
        MysqlError::OrmKeyNotSet => 8,
    }
}

impl MysqlError {
    pub fn code(self) -> (c: i32)
        ensures
            c == error_code(self),
    {
        match self {
            MysqlError::NoError => 0,
            MysqlError::ConnectionFailed => 1,
            MysqlError::InvalidOptions => 2,
            MysqlError::InvalidConnection => 3,
            MysqlError::PingFailed => 4,
            MysqlError::QueryFailed => 5,
            MysqlError::NoCacheActive => 6,
            MysqlError::InvalidOrm => 7,
            MysqlError::OrmKeyNotSet => 8,
        }
    }
}

/// Distinct errors carry distinct codes, so a code names its error.
pub proof fn lemma_error_code_injective(a: MysqlError, b: MysqlError)
    requires
        error_code(a) == error_code(b),
    ensures
        a == b,
{
}

/// Text that can become an error message: a borrowed or an owned string.
pub trait MessageText: Sized {
    spec fn text_view(&self) -> Seq<char>;

    fn into_message(self) -> (s: String)
        ensures
            s@ == self.text_view(),
    ;
}

impl<'a> MessageText for &'a str {
    open spec fn text_view(&self) -> Seq<char> {
        (**self)@
    }

    fn into_message(self) -> (s: String) {
        self.to_owned()
    }
}

impl MessageText for String {
    open spec fn text_view(&self) -> Seq<char> {
        self@
    }

    fn into_message(self) -> (s: String) {
        self
    }
}

/// The last error of a connection (or the global one).
#[derive(Debug, Clone)]
pub struct ErrorState {
    pub code: MysqlError,
    pub message: String,
}

impl ErrorState {
    pub fn ok() -> (s: Self)
        ensures
            s.code == MysqlError::NoError,
            s.message@ == Seq::<char>::empty(),
    {
        Self { code: MysqlError::NoError, message: String::new() }
    }

    pub fn new<M: MessageText>(code: MysqlError, message: M) -> (s: Self)
        ensures
            s.code == code,
            s.message@ == message.text_view(),
    {
        Self { code, message: message.into_message() }
    }
}

} // verus!
