//! The library's error type.
use vstd::prelude::*;

verus! {

#[derive(Debug, Clone, PartialEq)]
pub enum AppError {
    Io(String),
    Db(String),
    Parse(String),
    Network(String),
    Player(String),
}

impl AppError {
    /// The error as the user reads it: `<kind>: <message>`.
    pub open spec fn text(&self) -> Seq<char> {
        match self {
            AppError::Io(m) => "io: "@ + m@,
            AppError::Db(m) => "db: "@ + m@,
            AppError::Parse(m) => "parse: "@ + m@,
            AppError::Network(m) => "network: "@ + m@,
            AppError::Player(m) => "player: "@ + m@,
        }
    }

    pub fn message(&self) -> (r: String)
        ensures
            r@ == self.text(),
    {
        let (prefix, m) = match self {
            AppError::Io(m) => ("io: ", m),
            AppError::Db(m) => ("db: ", m),
            AppError::Parse(m) => ("parse: ", m),
            AppError::Network(m) => ("network: ", m),
            AppError::Player(m) => ("player: ", m),
        };
        let mut v = crate::text::chars_of(prefix);
        crate::text::push_str(&mut v, m.as_str());
        crate::text::string_of(v.as_slice())
    }
}

} // verus!
