//! The errors that end a run or a board's scan.
use vstd::prelude::*;

use crate::text::{chars_of, push_all, string_of};

verus! {

/// What went wrong while archiving.
#[derive(Debug, Clone, PartialEq, Eq)]
pub enum DownloaderError {
    /// The API no longer accepts the session: the cookie jar must be refreshed.
    NotAuthorized,
    /// No session token could be derived, even after a credential refresh.
    Authentication,
    /// The API answered with an exception code this archiver does not handle.
    APIException(String),
    /// The listing of a board named no post of that board.
    APILatestArticle,
    /// A post came without its title.
    APINameMissing,
    /// A post came without its date.
    APIDateMissing,
}

impl DownloaderError {
    /// The text shown to the operator for this error.
    pub open spec fn message_spec(&self) -> Seq<char> {
        match self {
            DownloaderError::NotAuthorized => "Not authorized, try updating cookies file"@,
            DownloaderError::Authentication => "Authentication error"@,
            DownloaderError::APIException(s) => "Daum API Error: "@ + s@,
            DownloaderError::APILatestArticle => "Could not get latest post"@,
            DownloaderError::APINameMissing => "Missing field 'plainTextOfName'"@,
            DownloaderError::APIDateMissing => "Missing field 'regDttm'"@,
        }
    }

    /// The text shown to the operator for this error.
    pub fn message(&self) -> (r: String)
        ensures
            r@ == self.message_spec(),
    {
        match self {
            DownloaderError::NotAuthorized => "Not authorized, try updating cookies file".to_owned(),
            DownloaderError::Authentication => "Authentication error".to_owned(),
            DownloaderError::APIException(s) => {
                let mut out = chars_of("Daum API Error: ");
                let code = chars_of(s.as_str());
                push_all(&mut out, &code);
                string_of(&out)
            },
            DownloaderError::APILatestArticle => "Could not get latest post".to_owned(),
            DownloaderError::APINameMissing => "Missing field 'plainTextOfName'".to_owned(),
            DownloaderError::APIDateMissing => "Missing field 'regDttm'".to_owned(),
        }
    }
}

} // verus!
