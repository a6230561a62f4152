use vstd::prelude::*;
use vstd::string::*;

verus! {

/// The unified error of the cache layer: a message and, where the failure
/// came from elsewhere, the text of the underlying cause.
#[derive(Debug, Clone)]
pub struct CacheError {
    message: String,
    cause: Option<String>,
}

/// What `describe` renders for an error with the given message and cause.
pub open spec fn rendered(message: Seq<char>, cause: Option<Seq<char>>) -> Seq<char> {
    let head = "CacheError: "@ + message;
    match cause {
        Some(c) => head + " Caused by: "@ + c,
        None => head,
    }
}

impl CacheError {
    /// The message given when the error was made.
    pub closed spec fn message_text(&self) -> Seq<char> {
        self.message@
    }

    /// The text of the underlying cause, if there is one.
    pub closed spec fn cause_text(&self) -> Option<Seq<char>> {
        match self.cause {
            Some(c) => Some(c@),
            None => None,
        }
    }

    /// An error with a message and no cause.
    pub fn new(message: &str) -> (e: CacheError)
        ensures
            e.message_text() == message@,
            e.cause_text() == None::<Seq<char>>,
    {
        CacheError { message: String::from_str(message), cause: None }
    }

    /// An error with a message, wrapping another error as its cause: the
    /// cause is kept as the text that its `Display` renders.
    pub fn with_cause<E: std::fmt::Display>(message: &str, cause: E) -> (e: CacheError)
        ensures
            e.message_text() == message@,
            exists|text: String|
                #[trigger] to_string_from_display_ensures::<E>(&cause, text) && e.cause_text()
                    == Some(text@),
    {
        let text = cause.to_string();
        CacheError { message: String::from_str(message), cause: Some(text) }
    }

    pub fn message(&self) -> (r: String)
        ensures
            r@ == self.message_text(),
    {
        self.message.clone()
    }

    pub fn cause(&self) -> (r: Option<String>)
        ensures
            match r {
                Some(c) => self.cause_text() == Some(c@),
                None => self.cause_text() is None,
            },
    {
        match &self.cause {
            Some(c) => Some(c.clone()),
            None => None,
        }
    }

    /// The human-readable form: `CacheError: <message>`, followed by
    /// ` Caused by: <cause>` when there is a cause.
    pub fn describe(&self) -> (r: String)
        ensures
            r@ == rendered(self.message_text(), self.cause_text()),
    {
        let mut text = String::from_str("CacheError: ");
        text.append(self.message.as_str());
        match &self.cause {
            Some(c) => {
                text.append(" Caused by: ");
                text.append(c.as_str());
            },
            None => {},
        }
        text
    }
}

} // verus!
