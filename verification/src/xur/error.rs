//! Errors of the XUIB parsers.
use vstd::prelude::*;

use super::archive::bytes_debug_hex;
use super::archive::io_error_text;
use super::archive::push_bytes_debug_hex;
use crate::text::dec;
use crate::text::push_dec;
use crate::text::push_str;

verus! {

#[derive(Debug)]
pub enum ParseError {
    TooShort { needed: usize, available: usize },
    BadMagic([u8; 4]),
    MissingSection(&'static str),
    BadString { offset: usize },
    BadObject(String),
    Io(std::io::Error),
}

/// The parse errors as the parsers' contracts speak of them: the variant and
/// its data. `BadObjectText` is a `BadObject` with the given message;
/// `BadObjectPrefix` is one whose message begins with the given text and goes
/// on with the text of an I/O error (the v5 parser's message for a child that
/// failed on a short read); `BadObject` is one whose message is left open.
pub enum PErr {
    TooShort { needed: int, available: int },
    BadMagic(Seq<u8>),
    MissingSection(Seq<char>),
    BadString(int),
    BadObjectText(Seq<char>),
    BadObjectPrefix(Seq<char>),
    BadObject,
    Io,
}

pub open spec fn error_is(e: ParseError, s: PErr) -> bool {
    match s {
        PErr::TooShort { needed, available } => e matches ParseError::TooShort {
            needed: n,
            available: a,
        } && n == needed && a == available,
        PErr::BadMagic(m) => e matches ParseError::BadMagic(x) && x@ == m,
        PErr::MissingSection(t) => e matches ParseError::MissingSection(x) && x@ == t,
        PErr::BadString(o) => e matches ParseError::BadString { offset } && offset == o,
        PErr::BadObjectText(m) => e matches ParseError::BadObject(x) && x@ == m,
        PErr::BadObjectPrefix(m) => e matches ParseError::BadObject(x) && m.is_prefix_of(x@),
        PErr::BadObject => e is BadObject,
        PErr::Io => e is Io,
    }
}

impl ParseError {
    /// The error's message (what `Display` shows).
    pub fn message(&self) -> (s: String)
        ensures
            match self {
                ParseError::TooShort { needed, available } => s@ == "need "@ + dec(
                    *needed as nat,
                ) + " bytes, only "@ + dec(*available as nat) + " available"@,
                ParseError::BadMagic(m) => s@ == "bad magic: "@ + bytes_debug_hex(m@),
                ParseError::MissingSection(t) => s@ == "missing required section: "@ + t@,
                ParseError::BadString { offset } => s@ == "bad string at offset "@ + dec(
                    *offset as nat,
                ),
                ParseError::BadObject(msg) => s@ == "bad object: "@ + msg@,
                ParseError::Io(_) => exists|t: Seq<char>| s@ == "io: "@ + t,
            },
    {
        let mut s = String::new();
        let ghost e = s@;
        match self {
            ParseError::TooShort { needed, available } => {
                push_str(&mut s, "need ");
                push_dec(&mut s, *needed as u64);
                push_str(&mut s, " bytes, only ");
                push_dec(&mut s, *available as u64);
                push_str(&mut s, " available");
                assert(s@ =~= "need "@ + dec(*needed as nat) + " bytes, only "@ + dec(
                    *available as nat,
                ) + " available"@);
            },
            ParseError::BadMagic(m) => {
                push_str(&mut s, "bad magic: ");
                push_bytes_debug_hex(&mut s, m);
                assert(s@ =~= "bad magic: "@ + bytes_debug_hex(m@));
            },
            ParseError::MissingSection(t) => {
                push_str(&mut s, "missing required section: ");
                push_str(&mut s, t);
                assert(s@ =~= "missing required section: "@ + t@);
            },
            ParseError::BadString { offset } => {
                push_str(&mut s, "bad string at offset ");
                push_dec(&mut s, *offset as u64);
                assert(s@ =~= "bad string at offset "@ + dec(*offset as nat));
            },
            ParseError::BadObject(msg) => {
                push_str(&mut s, "bad object: ");
                push_str(&mut s, msg.as_str());
                assert(s@ =~= "bad object: "@ + msg@);
            },
            ParseError::Io(err) => {
                push_str(&mut s, "io: ");
                let t = io_error_text(err);
                push_str(&mut s, t.as_str());
                assert(s@ =~= "io: "@ + t@);
            },
        }
        s
    }
}

impl From<std::io::Error> for ParseError {
    fn from(e: std::io::Error) -> (r: Self) {
        ParseError::Io(e)
    }
}

impl vstd::std_specs::convert::FromSpecImpl<std::io::Error> for ParseError {
    open spec fn obeys_from_spec() -> bool {
        true
    }

    open spec fn from_spec(e: std::io::Error) -> ParseError {
        ParseError::Io(e)
    }
}

} // verus!
