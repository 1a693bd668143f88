use vstd::prelude::*;

verus! {

/// The port and protocol a refusal is about, so a client can point at it.
#[derive(Debug, Clone, PartialEq, Eq)]
pub struct RelatedPort {
    pub port: u16,
    pub protocol: String,
}

/// Every error the library reports.
///
/// `Message` carries the text a user reads. `PortConflict` carries the same kind
/// of text plus the port it is about.
#[derive(Debug)]
pub enum AppError {
    Message(String),
    PortConflict { message: String, related_port: RelatedPort },
}

pub type AppResult<T> = Result<T, AppError>;

impl AppError {
    /// The text the error displays.
    pub open spec fn text(&self) -> Seq<char> {
        match self {
            AppError::Message(message) => message@,
            AppError::PortConflict { message, .. } => message@,
        }
    }

    /// A port conflict that displays `message` and remembers the port.
    pub fn port_conflict(message: String, port: u16, protocol: String) -> (e: Self)
        ensures
            e.text() == message@,
            e is PortConflict,
            e->related_port.port == port,
            e->related_port.protocol@ == protocol@,
    {
        AppError::PortConflict { message, related_port: RelatedPort { port, protocol } }
    }

    /// The port a conflict is about; `None` for every other error.
    pub fn related_port(&self) -> (r: Option<&RelatedPort>)
        ensures
            match self {
                AppError::PortConflict { related_port, .. } => r == Some(related_port),
                _ => r is None,
            },
    {
        match self {
            AppError::PortConflict { related_port, .. } => Some(related_port),
            _ => None,
        }
    }

    /// The text the error displays, as a `String`.
    pub fn message(&self) -> (s: String)
        ensures
            s@ == self.text(),
    {
        match self {
            AppError::Message(message) => message.clone(),
            AppError::PortConflict { message, .. } => message.clone(),
        }
    }
}

/// A plain refusal with this text.
pub fn invalid(message: String) -> (e: AppError)
    ensures
        e == AppError::Message(message),
        e.text() == message@,
{
    AppError::Message(message)
}

} // verus!
