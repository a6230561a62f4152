use crate::error::CacheError;
use std::string::FromUtf8Error;
use vstd::prelude::*;
use vstd::utf8::{decode_utf8, valid_utf8};

verus! {

#[verifier::external_type_specification]
#[verifier::external_body]
pub struct ExFromUtf8Error(FromUtf8Error);

/// Relies on std's String::from_utf8: it succeeds exactly when the bytes are
/// valid UTF-8, with the characters that they encode.
#[verifier::external_body]
fn utf8_string(bytes: Vec<u8>) -> (r: Result<String, FromUtf8Error>)
    ensures
        r is Ok <==> valid_utf8(bytes@),
        r matches Ok(s) ==> s@ == decode_utf8(bytes@),
{
    String::from_utf8(bytes)
}

/// The reply of the server to a `td_get` call, as far as the cache reads it.
pub enum RedisReply {
    /// No value is stored under the key.
    Nil,
    /// A status reply carrying the stored text.
    SimpleString(String),
    /// A bulk reply carrying the stored bytes.
    BulkString(Vec<u8>),
    /// Any other kind of reply.
    Unexpected,
}

/// What a reply tells: a miss (`Ok(None)`), the stored text, or a failure;
/// bulk bytes must be valid UTF-8.
pub open spec fn reply_spec(reply: RedisReply) -> Result<Option<Seq<char>>, ()> {
    match reply {
        RedisReply::Nil => Ok(None),
        RedisReply::SimpleString(s) => Ok(Some(s@)),
        RedisReply::BulkString(b) => if valid_utf8(b@) {
            Ok(Some(decode_utf8(b@)))
        } else {
            Err(())
        },
        RedisReply::Unexpected => Err(()),
    }
}

/// The stored text that a `td_get` reply carries, `None` on a miss. Bytes
/// that are not UTF-8 and replies of another kind are errors.
pub fn reply_text(reply: RedisReply) -> (r: Result<Option<String>, CacheError>)
    ensures
        r is Err <==> reply_spec(reply) is Err,
        r matches Ok(t) ==> match t {
            Some(s) => reply_spec(reply) == Ok::<Option<Seq<char>>, ()>(Some(s@)),
            None => reply_spec(reply) == Ok::<Option<Seq<char>>, ()>(None),
        },
{
    match reply {
        RedisReply::Nil => Ok(None),
        RedisReply::SimpleString(s) => Ok(Some(s)),
        RedisReply::BulkString(b) => match utf8_string(b) {
            Ok(s) => Ok(Some(s)),
            Err(e) => Err(CacheError::with_cause("Failed to convert bulk string to UTF-8", e)),
        },
        RedisReply::Unexpected => Err(CacheError::new("Unexpected response type from Redis function call")),
    }
}

} // verus!
