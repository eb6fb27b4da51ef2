//! Validated chain identifiers.
//!
//! Client and connection identifiers travel as raw strings and are validated
//! lazily, on access, never at record-construction time: a constructor trusts
//! the caller to hand it an already-validated identifier object.

use vstd::prelude::*;
use vstd::string::StrSliceExecFns;
use vstd::utf8::{encode_utf8, is_ascii_chars, is_ascii_chars_encode_utf8};

use crate::error::Error;
use crate::wire::string_wf;

verus! {

/// A character an identifier may contain: an ASCII letter, a digit, or one of
/// `.`, `_`, `+`, `-`, `#`, `[`, `]`, `<`, `>`.
pub open spec fn valid_id_char(c: char) -> bool {
    ||| ('a' <= c && c <= 'z')
    ||| ('A' <= c && c <= 'Z')
    ||| ('0' <= c && c <= '9')
    ||| c == '.'
    ||| c == '_'
    ||| c == '+'
    ||| c == '-'
    ||| c == '#'
    ||| c == '['
    ||| c == ']'
    ||| c == '<'
    ||| c == '>'
}

/// A well-formed identifier: non-empty, at most 64 characters, all drawn from
/// the identifier alphabet.
pub open spec fn valid_identifier(s: Seq<char>) -> bool {
    &&& 1 <= s.len() <= 64
    &&& forall|i: int| 0 <= i < s.len() ==> valid_id_char(#[trigger] s[i])
}

/// A valid identifier is ASCII, so its UTF-8 form is one byte per character
/// and always fits a wire length prefix.
pub proof fn lemma_valid_identifier_wire(s: Seq<char>)
    requires
        valid_identifier(s),
    ensures
        is_ascii_chars(s),
        encode_utf8(s).len() == s.len(),
        string_wf(s),
{
    assert forall|i: int| 0 <= i < s.len() implies '\0' <= #[trigger] s[i] <= '\u{7f}' by {
        assert(valid_id_char(s[i]));
    }
    is_ascii_chars_encode_utf8(s);
}

fn char_in_alphabet(c: char) -> (r: bool)
    ensures
        r == valid_id_char(c),
{
    ('a' <= c && c <= 'z') || ('A' <= c && c <= 'Z') || ('0' <= c && c <= '9') || c == '.' || c
        == '_' || c == '+' || c == '-' || c == '#' || c == '[' || c == ']' || c == '<' || c == '>'
}

/// Decide `valid_identifier` for any string.
pub fn is_valid_identifier(s: &str) -> (r: bool)
    ensures
        r == valid_identifier(s@),
{
    let len = s.unicode_len();
    if len < 1 || len > 64 {
        return false;
    }
    let mut i: usize = 0;
    while i < len
        invariant
            len == s@.len(),
            1 <= len <= 64,
            i <= len,
            forall|j: int| 0 <= j < i ==> valid_id_char(#[trigger] s@[j]),
        decreases len - i,
    {
        let c = s.get_char(i);
        if !char_in_alphabet(c) {
            return false;
        }
        i = i + 1;
    }
    true
}

/// A validated client identifier.
#[derive(Debug, PartialEq, Eq)]
pub struct ClientId {
    s: String,
}

impl View for ClientId {
    type V = Seq<char>;

    closed spec fn view(&self) -> Seq<char> {
        self.s@
    }
}

impl ClientId {
    /// Every client identifier in circulation is valid: the only constructor
    /// checks it.
    #[verifier::type_invariant]
    pub closed spec fn inv(self) -> bool {
        valid_identifier(self.s@)
    }

    /// Parse a raw string into a validated client identifier.
    pub fn from_string(s: String) -> (r: Result<ClientId, Error>)
        ensures
            r matches Ok(id) ==> id@ == s@ && valid_identifier(s@),
            r is Err <==> !valid_identifier(s@),
    {
        if is_valid_identifier(s.as_str()) {
            Ok(ClientId { s })
        } else {
            Err(Error::DecodingError("malformed client identifier".to_owned()))
        }
    }

    pub fn as_str(&self) -> (r: &str)
        ensures
            r@ == self@,
            valid_identifier(self@),
    {
        proof {
            use_type_invariant(self);
        }
        self.s.as_str()
    }

    /// The raw string, surrendered.
    pub fn into_string(self) -> (r: String)
        ensures
            r@ == self@,
            valid_identifier(self@),
    {
        proof {
            use_type_invariant(&self);
        }
        self.s
    }
}

/// A validated connection identifier.
#[derive(Debug, PartialEq, Eq)]
pub struct ConnectionId {
    s: String,
}

impl View for ConnectionId {
    type V = Seq<char>;

    closed spec fn view(&self) -> Seq<char> {
        self.s@
    }
}

impl ConnectionId {
    /// Every connection identifier in circulation is valid: the only
    /// constructor checks it.
    #[verifier::type_invariant]
    pub closed spec fn inv(self) -> bool {
        valid_identifier(self.s@)
    }

    /// Parse a raw string into a validated connection identifier.
    pub fn from_string(s: String) -> (r: Result<ConnectionId, Error>)
        ensures
            r matches Ok(id) ==> id@ == s@ && valid_identifier(s@),
            r is Err <==> !valid_identifier(s@),
    {
        if is_valid_identifier(s.as_str()) {
            Ok(ConnectionId { s })
        } else {
            Err(Error::DecodingError("malformed connection identifier".to_owned()))
        }
    }

    pub fn as_str(&self) -> (r: &str)
        ensures
            r@ == self@,
            valid_identifier(self@),
    {
        proof {
            use_type_invariant(self);
        }
        self.s.as_str()
    }

    /// The raw string, surrendered.
    pub fn into_string(self) -> (r: String)
        ensures
            r@ == self@,
            valid_identifier(self@),
    {
        proof {
            use_type_invariant(&self);
        }
        self.s
    }
}

} // verus!
