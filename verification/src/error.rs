//! The bot's error type. Errors that come from outside services carry the
//! text those services gave.
use vstd::prelude::*;

verus! {

/// Everything that can go wrong while handling an update.
#[derive(Debug, PartialEq, Eq)]
pub enum Error {
    UserNotFound,
    SQLITE3Error(String),
    TelegramError(String),
    ReqwestError(String),
    ConfNotFound,
    WordNotFound,
    WordInStopList,
    IOError(String),
    FileNotFound,
    JsonParseError(String),
    PopenError(String),
    MystemError(String),
    SQLBannedCommand(String),
    SQLInvalidCommand,
    SQLResultTooLong(String),
    CodeHighlightningError,
}

impl Error {
    /// The text shown for any error.
    pub fn message(&self) -> (s: String)
        ensures
            s@ == "An error occurred."@,
    {
        String::from_str("An error occurred.")
    }
}

} // verus!
