//! Request methods.

use crate::text::same_text;
use vstd::prelude::*;
use vstd::string::*;

verus! {

/// The request methods the engine understands.
#[derive(Debug, Clone, Copy, PartialEq, Eq, Structural)]
pub enum Method {
    Head,
    Get,
    Options,
    Post,
    Put,
    Patch,
    Delete,
}

impl Method {
    /// The token that names this method on the wire.
    pub open spec fn text(self) -> Seq<char> {
        match self {
            Method::Get => "GET"@,
            Method::Head => "HEAD"@,
            Method::Options => "OPTIONS"@,
            Method::Post => "POST"@,
            Method::Put => "PUT"@,
            Method::Patch => "PATCH"@,
            Method::Delete => "DELETE"@,
        }
    }

    /// The method that `token` names, letter for letter and in capitals.
    pub open spec fn parse(token: Seq<char>) -> Option<Method> {
        if token == "GET"@ {
            Some(Method::Get)
        } else if token == "HEAD"@ {
            Some(Method::Head)
        } else if token == "OPTIONS"@ {
            Some(Method::Options)
        } else if token == "POST"@ {
            Some(Method::Post)
        } else if token == "PUT"@ {
            Some(Method::Put)
        } else if token == "PATCH"@ {
            Some(Method::Patch)
        } else if token == "DELETE"@ {
            Some(Method::Delete)
        } else {
            None
        }
    }

    /// The token that names this method on the wire.
    pub fn as_str(&self) -> (token: &'static str)
        ensures
            token@ == self.text(),
    {
        match self {
            Method::Get => "GET",
            Method::Head => "HEAD",
            Method::Options => "OPTIONS",
            Method::Post => "POST",
            Method::Put => "PUT",
            Method::Patch => "PATCH",
            Method::Delete => "DELETE",
        }
    }

    /// The token that names this method on the wire, as an owned string.
    pub fn to_string(&self) -> (token: String)
        ensures
            token@ == self.text(),
    {
        String::from_str(self.as_str())
    }

    /// Reads a method token. Anything but one of the seven tokens, in
    /// capitals, is refused with the message `Invalid HTTP Method`.
    pub fn from_str(input: &str) -> (result: Result<Method, &'static str>)
        ensures
            match Method::parse(input@) {
                Some(method) => result == Ok::<Method, &'static str>(method),
                None => result is Err && result->Err_0@ == "Invalid HTTP Method"@,
            },
    {
        if same_text(input, "GET") {
            Ok(Method::Get)
        } else if same_text(input, "HEAD") {
            Ok(Method::Head)
        } else if same_text(input, "OPTIONS") {
            Ok(Method::Options)
        } else if same_text(input, "POST") {
            Ok(Method::Post)
        } else if same_text(input, "PUT") {
            Ok(Method::Put)
        } else if same_text(input, "PATCH") {
            Ok(Method::Patch)
        } else if same_text(input, "DELETE") {
            Ok(Method::Delete)
        } else {
            Err("Invalid HTTP Method")
        }
    }
}

/// Every method is read back from the token that names it.
pub proof fn lemma_method_round_trip(method: Method)
    ensures
        Method::parse(method.text()) == Some(method),
{
    reveal_strlit("GET");
    reveal_strlit("HEAD");
    reveal_strlit("OPTIONS");
    reveal_strlit("POST");
    reveal_strlit("PUT");
    reveal_strlit("PATCH");
    reveal_strlit("DELETE");
    assert("GET"@.len() == 3 && "PUT"@.len() == 3);
    assert("HEAD"@.len() == 4 && "POST"@.len() == 4);
    assert("PATCH"@.len() == 5 && "DELETE"@.len() == 6 && "OPTIONS"@.len() == 7);
    assert("GET"@[0] != "PUT"@[0]);
    assert("HEAD"@[0] != "POST"@[0]);
}

/// A token names at most one method: the one that is written that way.
pub proof fn lemma_method_parse_is_text(token: Seq<char>)
    ensures
        Method::parse(token) matches Some(method) ==> method.text() == token,
{
}

} // verus!
