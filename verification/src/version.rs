//! Protocol versions.

use crate::text::same_text;
use vstd::prelude::*;
use vstd::string::*;

verus! {

/// The protocol versions the engine knows by name. The name is echoed in the
/// status line; nothing else depends on it.
#[derive(Debug, Clone, Copy, PartialEq, Eq, Structural)]
pub enum HttpVersion {
    V0_9,
    V1_0,
    V1_1,
    V2_0,
    V3_0,
}

impl HttpVersion {
    /// The token that names this version on the wire.
    pub open spec fn text(self) -> Seq<char> {
        match self {
            HttpVersion::V0_9 => "HTTP/0.9"@,
            HttpVersion::V1_0 => "HTTP/1.0"@,
            HttpVersion::V1_1 => "HTTP/1.1"@,
            HttpVersion::V2_0 => "HTTP/2.0"@,
            HttpVersion::V3_0 => "HTTP/3.0"@,
        }
    }

    /// The version that `token` names, letter for letter.
    pub open spec fn parse(token: Seq<char>) -> Option<HttpVersion> {
        if token == "HTTP/0.9"@ {
            Some(HttpVersion::V0_9)
        } else if token == "HTTP/1.0"@ {
            Some(HttpVersion::V1_0)
        } else if token == "HTTP/1.1"@ {
            Some(HttpVersion::V1_1)
        } else if token == "HTTP/2.0"@ {
            Some(HttpVersion::V2_0)
        } else if token == "HTTP/3.0"@ {
            Some(HttpVersion::V3_0)
        } else {
            None
        }
    }

    /// The token that names this version on the wire.
    pub fn as_str(&self) -> (token: &'static str)
        ensures
            token@ == self.text(),
    {
        match self {
            HttpVersion::V0_9 => "HTTP/0.9",
            HttpVersion::V1_0 => "HTTP/1.0",
            HttpVersion::V1_1 => "HTTP/1.1",
            HttpVersion::V2_0 => "HTTP/2.0",
            HttpVersion::V3_0 => "HTTP/3.0",
        }
    }

    /// The token that names this version on the wire, as an owned string.
    pub fn to_string(&self) -> (token: String)
        ensures
            token@ == self.text(),
    {
        String::from_str(self.as_str())
    }

    /// Reads a version token. Anything but one of the five tokens is refused
    /// with the message `Unknown HTTP version`.
    pub fn from_str(input: &str) -> (result: Result<HttpVersion, &'static str>)
        ensures
            match HttpVersion::parse(input@) {
                Some(version) => result == Ok::<HttpVersion, &'static str>(version),
                None => result is Err && result->Err_0@ == "Unknown HTTP version"@,
            },
    {
        if same_text(input, "HTTP/0.9") {
            Ok(HttpVersion::V0_9)
        } else if same_text(input, "HTTP/1.0") {
            Ok(HttpVersion::V1_0)
        } else if same_text(input, "HTTP/1.1") {
            Ok(HttpVersion::V1_1)
        } else if same_text(input, "HTTP/2.0") {
            Ok(HttpVersion::V2_0)
        } else if same_text(input, "HTTP/3.0") {
            Ok(HttpVersion::V3_0)
        } else {
            Err("Unknown HTTP version")
        }
    }
}

/// Every version is read back from the token that names it.
pub proof fn lemma_version_round_trip(version: HttpVersion)
    ensures
        HttpVersion::parse(version.text()) == Some(version),
{
    reveal_strlit("HTTP/0.9");
    reveal_strlit("HTTP/1.0");
    reveal_strlit("HTTP/1.1");
    reveal_strlit("HTTP/2.0");
    reveal_strlit("HTTP/3.0");
    assert("HTTP/0.9"@[5] == '0' && "HTTP/1.0"@[5] == '1' && "HTTP/1.1"@[5] == '1');
    assert("HTTP/2.0"@[5] == '2' && "HTTP/3.0"@[5] == '3');
    assert("HTTP/1.0"@[7] != "HTTP/1.1"@[7]);
}

} // verus!
